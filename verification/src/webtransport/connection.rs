//! A WebTransport endpoint over HTTP/3: sessions opened by extended
//! CONNECT, their data streams and datagrams, capsules on the CONNECT
//! stream, and the events the bytes received produce.
use vstd::prelude::*;
use vstd::utf8::{encode_utf8, encode_utf8_decode_utf8};
use vstd::string::StringSliceAdditionalSpecFns;
use crate::quic_varint::{spec_varint_bytes, spec_decode_varint, spec_max_varint, lemma_decode_varint_bound};
use crate::webtransport::capsule::{Capsule, CapsuleView, spec_encode_capsule, spec_parse_capsules, spec_results_view};
use crate::webtransport::config::Config;
use crate::numeral::{format_u16, parse_u16, spec_decimal, spec_parse_u16};
use crate::webtransport::error::{self, Error, ErrorKind, Result, spec_wt_to_h3};
use crate::webtransport::flow_control::{FlowView, spec_new_flow, spec_can_open, spec_can_send};
use crate::webtransport::frame::{WT_SESSION_GONE, WT_UNI_STREAM_TYPE, WT_BIDI_SIGNAL, H3_FRAME_DATA, H3_FRAME_PRIORITY_UPDATE};
use crate::webtransport::h3::{
    H3Connection, H3Event, H3EventView, H3View, PeerSettings, PeerSettingsView, StreamRole,
    spec_initialize, spec_connect_headers, spec_response_headers, spec_headers_frame, spec_opt_str,
    spec_sends_view, spec_process_stream_data as spec_h3_process, spec_classify_uni, spec_stream_pos,
    spec_supports_webtransport, spec_h3_events_view, spec_h3_new,
};
use crate::webtransport::h3::frame::{H3Frame, H3FrameView, spec_encode_frame};
use crate::webtransport::h3::qpack::{spec_strs_view, spec_pairs_view};
use crate::first_pos::{spec_first_pos, lemma_first_pos, lemma_first_pos_at};
use crate::webtransport::keyed::{
    spec_lookup, spec_put, pair_get, pair_put, contains_key,
};
use crate::webtransport::session::{
    Session, SessionState, SessionView, spec_opt_string, spec_strings_view, spec_register_stream, spec_stream_ids,
    spec_stream_is,
};
use crate::webtransport::stream::{
    self, StreamType, WtStream, WtStreamView, HeaderState, HeaderProgress, spec_read_header, spec_read_session_id,
    spec_stream_header, lemma_read_header_bound, lemma_read_session_id_bound, lemma_wf_same_decoders,
};
use crate::webtransport::varint;

verus! {

#[derive(Debug, Clone, PartialEq, Eq)]
pub enum Event {
    SessionRequest {
        session_id: u64,
        authority: String,
        path: String,
        origin: Option<String>,
        headers: Vec<(String, String)>,
    },
    SessionEstablished(u64),
    SessionClosed { session_id: u64, error_code: u32, reason: String },
    SessionDraining(u64),
    UniStreamReceived { session_id: u64, stream_id: u64 },
    BidiStreamReceived { session_id: u64, stream_id: u64 },
    StreamData(u64),
    StreamFinished(u64),
    Datagram { session_id: u64, payload: Vec<u8> },
    GoAway,
}

/// Mathematical value of an [`Event`].
pub enum EventView {
    SessionRequest {
        session_id: u64,
        authority: Seq<char>,
        path: Seq<char>,
        origin: Option<Seq<char>>,
        headers: Seq<(Seq<char>, Seq<char>)>,
    },
    SessionEstablished(u64),
    SessionClosed { session_id: u64, error_code: u32, reason: Seq<char> },
    SessionDraining(u64),
    UniStreamReceived { session_id: u64, stream_id: u64 },
    BidiStreamReceived { session_id: u64, stream_id: u64 },
    StreamData(u64),
    StreamFinished(u64),
    Datagram { session_id: u64, payload: Seq<u8> },
    GoAway,
}

impl View for Event {
    type V = EventView;

    open spec fn view(&self) -> EventView {
        match self {
            Event::SessionRequest { session_id, authority, path, origin, headers } => EventView::SessionRequest {
                session_id: *session_id,
                authority: authority@,
                path: path@,
                origin: spec_opt_string(*origin),
                headers: spec_pairs_view(headers@),
            },
            Event::SessionEstablished(id) => EventView::SessionEstablished(*id),
            Event::SessionClosed { session_id, error_code, reason } =>
                EventView::SessionClosed { session_id: *session_id, error_code: *error_code, reason: reason@ },
            Event::SessionDraining(id) => EventView::SessionDraining(*id),
            Event::UniStreamReceived { session_id, stream_id } =>
                EventView::UniStreamReceived { session_id: *session_id, stream_id: *stream_id },
            Event::BidiStreamReceived { session_id, stream_id } =>
                EventView::BidiStreamReceived { session_id: *session_id, stream_id: *stream_id },
            Event::StreamData(id) => EventView::StreamData(*id),
            Event::StreamFinished(id) => EventView::StreamFinished(*id),
            Event::Datagram { session_id, payload } => EventView::Datagram { session_id: *session_id, payload: payload@ },
            Event::GoAway => EventView::GoAway,
        }
    }
}

pub struct ResetInfo {
    pub h3_error_code: u64,
    pub min_reliable_size: u64,
}

pub struct CloseSessionResult {
    pub capsule_data: Vec<u8>,
    pub streams_to_reset: Vec<u64>,
    pub reset_error_code: u64,
}

pub struct Connection {
    h3: H3Connection,
    is_server: bool,
    config: Config,
    sessions: Vec<Session>,
    connect_stream_to_session: Vec<(u64, u64)>,
    wt_stream_to_session: Vec<(u64, u64)>,
    pending_wt_streams: Vec<WtStream>,
    pending_events: Vec<Event>,
    classified_streams: Vec<u64>,
    h3_initialized: bool,
    /// CONNECT requests received before the peer's SETTINGS.
    deferred_requests: Vec<(u64, Vec<(String, String)>)>,
    previous_settings: Option<PeerSettings>,
}

/// Mathematical value of a [`Connection`].
pub struct ConnView {
    pub h3: H3View,
    pub is_server: bool,
    pub config: Config,
    pub sessions: Seq<SessionView>,
    pub connect_map: Seq<(u64, u64)>,
    pub wt_map: Seq<(u64, u64)>,
    pub pending_wt: Seq<WtStreamView>,
    pub events: Seq<EventView>,
    pub classified: Seq<u64>,
    pub h3_initialized: bool,
    pub deferred: Seq<(u64, Seq<(Seq<char>, Seq<char>)>)>,
    pub previous_settings: Option<PeerSettingsView>,
}

pub open spec fn spec_sessions_view(v: Seq<Session>) -> Seq<SessionView> {
    v.map_values(|s: Session| s@)
}

pub open spec fn spec_events_view(v: Seq<Event>) -> Seq<EventView> {
    v.map_values(|e: Event| e@)
}

pub open spec fn spec_pending_view(v: Seq<WtStream>) -> Seq<WtStreamView> {
    v.map_values(|s: WtStream| s@)
}

pub open spec fn spec_deferred_view(v: Seq<(u64, Vec<(String, String)>)>) -> Seq<(u64, Seq<(Seq<char>, Seq<char>)>)> {
    v.map_values(|d: (u64, Vec<(String, String)>)| (d.0, spec_pairs_view(d.1@)))
}

pub open spec fn spec_opt_settings(o: Option<PeerSettings>) -> Option<PeerSettingsView> {
    match o {
        Some(p) => Some(p@),
        None => None,
    }
}

impl View for Connection {
    type V = ConnView;

    closed spec fn view(&self) -> ConnView {
        ConnView {
            h3: self.h3@,
            is_server: self.is_server,
            config: self.config,
            sessions: spec_sessions_view(self.sessions@),
            connect_map: self.connect_stream_to_session@,
            wt_map: self.wt_stream_to_session@,
            pending_wt: spec_pending_view(self.pending_wt_streams@),
            events: spec_events_view(self.pending_events@),
            classified: self.classified_streams@,
            h3_initialized: self.h3_initialized,
            deferred: spec_deferred_view(self.deferred_requests@),
            previous_settings: spec_opt_settings(self.previous_settings),
        }
    }
}

// ---------------------------------------------------------------------------
// Sessions by ID
// ---------------------------------------------------------------------------

pub open spec fn spec_session_is(id: u64) -> spec_fn(SessionView) -> bool {
    |s: SessionView| s.id == id
}

/// Position of session `id`, or -1.
pub open spec fn spec_session_pos(ss: Seq<SessionView>, id: u64) -> int {
    spec_first_pos(ss, spec_session_is(id))
}

/// Session `id`, if there is one.
pub open spec fn spec_session(v: ConnView, id: u64) -> Option<SessionView> {
    let i = spec_session_pos(v.sessions, id);
    if i < 0 { None } else { Some(v.sessions[i]) }
}

/// `ss` with `s` in place of the session with its ID, or with `s` added.
pub open spec fn spec_put_session(ss: Seq<SessionView>, s: SessionView) -> Seq<SessionView> {
    let i = spec_session_pos(ss, s.id);
    if i < 0 { ss.push(s) } else { ss.update(i, s) }
}

/// `v` with session `id` changed by `f`, if there is one.
pub open spec fn spec_with_session(v: ConnView, id: u64, f: spec_fn(SessionView) -> SessionView) -> ConnView {
    let i = spec_session_pos(v.sessions, id);
    if i < 0 { v } else { ConnView { sessions: v.sessions.update(i, f(v.sessions[i])), ..v } }
}

/// The number of sessions that are not closed.
pub open spec fn spec_active_sessions(ss: Seq<SessionView>) -> nat {
    ss.filter(spec_is_active()).len()
}

/// Whether a session is not closed.
pub open spec fn spec_is_active() -> spec_fn(SessionView) -> bool {
    |s: SessionView| s.state != SessionState::Closed
}

/// `v` with event `e` appended.
pub open spec fn spec_emit(v: ConnView, e: EventView) -> ConnView {
    ConnView { events: v.events.push(e), ..v }
}

/// A new session as the configuration sets it up.
pub open spec fn spec_new_session(c: Config, id: u64) -> SessionView {
    SessionView {
        id,
        state: SessionState::Connecting,
        flow: spec_new_flow(c.initial_max_streams_bidi, c.initial_max_streams_uni, c.initial_max_data),
        streams: Seq::empty(),
        capsule_buf: Seq::empty(),
        authority: Seq::empty(),
        path: Seq::empty(),
        origin: None,
        offered_protocols: Seq::empty(),
        negotiated_protocol: None,
    }
}

/// Whether the peer's initial limits turn flow control on.
pub open spec fn spec_peer_fc(ps: PeerSettingsView) -> bool {
    ps.wt_initial_max_streams_bidi > 0 || ps.wt_initial_max_streams_uni > 0 || ps.wt_initial_max_data > 0
}

/// `f` with the peer's initial limits.
pub open spec fn spec_peer_limits(f: FlowView, ps: PeerSettingsView) -> FlowView {
    FlowView {
        peer_max_streams_bidi: ps.wt_initial_max_streams_bidi,
        peer_max_streams_uni: ps.wt_initial_max_streams_uni,
        peer_max_data: ps.wt_initial_max_data,
        ..f
    }
}

/// Closing session `id`: it becomes closed, and the closure is
/// reported once.
pub open spec fn spec_handle_close(v: ConnView, id: u64, code: u32, reason: Seq<char>) -> ConnView {
    match spec_session(v, id) {
        Some(s) => if s.state == SessionState::Closed {
            v
        } else {
            spec_emit(
                spec_with_session(v, id, |s: SessionView| SessionView { state: SessionState::Closed, ..s }),
                EventView::SessionClosed { session_id: id, error_code: code, reason },
            )
        },
        None => spec_emit(v, EventView::SessionClosed { session_id: id, error_code: code, reason }),
    }
}

/// Room left in every session's counters for `len` more bytes and one
/// more stream from the peer.
pub open spec fn spec_counters_room(v: ConnView, len: nat) -> bool {
    forall|i: int| 0 <= i < v.sessions.len() ==> {
        &&& (#[trigger] v.sessions[i]).flow.peer_streams_opened_bidi < u64::MAX
        &&& v.sessions[i].flow.peer_streams_opened_uni < u64::MAX
        &&& v.sessions[i].flow.data_received + len <= u64::MAX
    }
}


/// Opening a session as a client: allowed once the peer's SETTINGS
/// came, within its session limit, and for one session only when the peer
/// offers no flow control; the CONNECT request goes on a new request
/// stream, whose ID becomes the session ID.
pub open spec fn spec_connect(
    v: ConnView,
    authority: Seq<char>,
    path: Seq<char>,
    origin: Option<Seq<char>>,
    extra: Seq<(Seq<char>, Seq<char>)>,
) -> (core::result::Result<(u64, Seq<u8>), ErrorKind>, ConnView) {
    let ps = v.h3.peer_settings;
    let active = spec_active_sessions(v.sessions);
    if !v.h3.settings_received {
        (Err(ErrorKind::ProtocolViolation), v)
    } else if ps.wt_max_sessions matches Some(m) && active >= m {
        (Err(ErrorKind::SessionLimitReached), v)
    } else if !spec_peer_fc(ps) && active >= 1 {
        (Err(ErrorKind::SessionLimitReached), v)
    } else {
        let id = v.h3.next_bidi;
        let h3a = H3View { next_bidi: (id + 4) as u64, ..v.h3 };
        match spec_headers_frame(spec_connect_headers(authority, path, origin, extra)) {
            Ok(b) => (Ok((id, b)), ConnView {
                h3: H3View { streams: crate::webtransport::h3::spec_insert_stream(v.h3.streams, id, StreamRole::Request), ..h3a },
                sessions: spec_put_session(v.sessions, spec_new_session(v.config, id)),
                connect_map: spec_put(v.connect_map, id, id),
                ..v
            }),
            Err(k) => (Err(k), ConnView { h3: h3a, ..v }),
        }
    }
}

/// Accepting session `id`: it becomes established and takes the
/// peer's initial limits; the answer is a 200 response.
pub open spec fn spec_accept(v: ConnView, id: u64, extra: Seq<(Seq<char>, Seq<char>)>)
    -> (core::result::Result<Seq<u8>, ErrorKind>, ConnView)
{
    match spec_session(v, id) {
        None => (Err(ErrorKind::SessionNotFound(id)), v),
        Some(s) => if s.state != SessionState::Connecting {
            (Err(ErrorKind::ProtocolViolation), v)
        } else {
            let ps = v.h3.peer_settings;
            let flow = if v.h3.settings_received {
                FlowView {
                    enabled: spec_peer_fc(ps) || (ps.wt_max_sessions matches Some(m) && m > 1),
                    ..spec_peer_limits(s.flow, ps)
                }
            } else {
                s.flow
            };
            let v1 = spec_with_session(v, id, |x: SessionView| SessionView { state: SessionState::Established, flow, ..x });
            match spec_headers_frame(spec_response_headers(200, extra)) {
                Ok(b) => (Ok(b), v1),
                Err(k) => (Err(k), v1),
            }
        },
    }
}

/// Opening a data stream on session `id`: the session must be
/// established and the peer's stream limit not reached; the answer is the
/// stream header.
pub open spec fn spec_open_stream(v: ConnView, id: u64, bidi: bool)
    -> (core::result::Result<(u64, Seq<u8>), ErrorKind>, ConnView)
{
    match spec_session(v, id) {
        None => (Err(ErrorKind::SessionNotFound(id)), v),
        Some(s) => if s.state != SessionState::Established {
            (Err(ErrorKind::SessionClosed), v)
        } else if !spec_can_open(s.flow, bidi) {
            (Err(ErrorKind::StreamBlocked), v)
        } else {
            let flow = if bidi {
                FlowView { streams_opened_bidi: (s.flow.streams_opened_bidi + 1) as u64, ..s.flow }
            } else {
                FlowView { streams_opened_uni: (s.flow.streams_opened_uni + 1) as u64, ..s.flow }
            };
            let v1 = spec_with_session(v, id, |x: SessionView| SessionView { flow, ..x });
            if id > spec_max_varint() {
                (Err(ErrorKind::VarintOverflow), v1)
            } else {
                (Ok((id, spec_stream_header(id, if bidi { StreamType::BiDirectional } else { StreamType::UniDirectional }))), v1)
            }
        },
    }
}

/// The view of a new outgoing data stream.
pub open spec fn spec_outgoing_stream(quic_stream_id: u64, session_id: u64, t: StreamType) -> WtStreamView {
    WtStreamView {
        quic_stream_id,
        stream_type: t,
        progress: HeaderProgress {
            state: HeaderState::Done,
            signal_bytes: Seq::empty(),
            id_bytes: Seq::empty(),
            session_id,
            header_len: 0,
        },
    }
}

/// The session the data stream `quic_stream_id` belongs to.
pub open spec fn spec_stream_session(v: ConnView, quic_stream_id: u64) -> Option<SessionView> {
    match spec_lookup(v.wt_map, quic_stream_id) {
        Some(sid) => spec_session(v, sid),
        None => None,
    }
}

/// Bytes of a datagram of session `id`: the quarter stream ID, then
/// the payload.
pub open spec fn spec_datagram(id: u64, payload: Seq<u8>) -> Seq<u8> {
    spec_varint_bytes(id / 4) + payload
}

/// The protocols as a list of quoted strings, separated by a comma and a
/// space.
pub open spec fn spec_protocol_list(ps: Seq<Seq<char>>) -> Seq<char>
    decreases ps.len(),
{
    if ps.len() == 0 {
        Seq::empty()
    } else if ps.len() == 1 {
        seq!['"'] + ps[0] + seq!['"']
    } else {
        spec_protocol_list(ps.drop_last()) + seq![',', ' ', '"'] + ps.last() + seq!['"']
    }
}

/// Views of a list of strings.
pub open spec fn spec_str_list_view(v: Seq<&str>) -> Seq<Seq<char>> {
    v.map_values(|s: &str| s@)
}

/// The TLS exporter context of session `id`: the session ID as 8
/// big-endian bytes, then the label and the context, each after its
/// length as one byte.
pub open spec fn spec_exporter_context(id: u64, label: Seq<u8>, context: Seq<u8>) -> Seq<u8> {
    seq![
        (id >> 56u64) as u8, (id >> 48u64) as u8, (id >> 40u64) as u8, (id >> 32u64) as u8,
        (id >> 24u64) as u8, (id >> 16u64) as u8, (id >> 8u64) as u8, id as u8,
    ] + seq![label.len() as u8] + label + seq![context.len() as u8] + context
}

/// The H3 DATA frame that carries capsule `c` on a CONNECT stream.
pub open spec fn spec_capsule_data(c: CapsuleView) -> core::result::Result<Seq<u8>, ErrorKind> {
    match spec_encode_capsule(c) {
        Ok(b) => spec_encode_frame(H3FrameView { frame_type: H3_FRAME_DATA, payload: b }),
        Err(k) => Err(k),
    }
}


// ---------------------------------------------------------------------------
// What received bytes do
// ---------------------------------------------------------------------------

/// The value of the first field named `name`.
pub open spec fn spec_header_get(h: Seq<(Seq<char>, Seq<char>)>, name: Seq<char>) -> Option<Seq<char>> {
    let i = spec_first_pos(h, spec_field_is(name));
    if i < 0 { None } else { Some(h[i].1) }
}

/// The name test of a list of fields.
pub open spec fn spec_field_is(name: Seq<char>) -> spec_fn((Seq<char>, Seq<char>)) -> bool {
    |p: (Seq<char>, Seq<char>)| p.0 == name
}

/// Encoding a concatenation encodes each part.
pub proof fn lemma_encode_utf8_concat(a: Seq<char>, b: Seq<char>)
    ensures
        encode_utf8(a + b) == encode_utf8(a) + encode_utf8(b),
    decreases a.len(),
{
    if a.len() == 0 {
        assert(a + b =~= b);
        assert(encode_utf8(a) =~= Seq::<u8>::empty());
        assert(Seq::<u8>::empty() + encode_utf8(b) =~= encode_utf8(b));
    } else {
        assert((a + b).drop_first() =~= a.drop_first() + b);
        assert((a + b)[0] == a[0]);
        lemma_encode_utf8_concat(a.drop_first(), b);
        assert(encode_utf8(a + b) =~= encode_utf8(a) + encode_utf8(b));
    }
}

/// Whether two strings are equal.
fn str_eq(a: &str, b: &str) -> (r: bool)
    ensures
        r == (a@ == b@),
{
    let x = a.as_bytes();
    let y = b.as_bytes();
    proof {
        encode_utf8_decode_utf8(a@);
        encode_utf8_decode_utf8(b@);
    }
    if x.len() != y.len() {
        return false;
    }
    let mut i: usize = 0;
    while i < x.len()
        invariant
            i <= x@.len(),
            x@.len() == y@.len(),
            x@ == encode_utf8(a@),
            y@ == encode_utf8(b@),
            forall|j: int| 0 <= j < i ==> x@[j] == y@[j],
        decreases x.len() - i,
    {
        if x[i] != y[i] {
            return false;
        }
        i = i + 1;
    }
    proof {
        assert(x@ =~= y@);
        encode_utf8_decode_utf8(a@);
        encode_utf8_decode_utf8(b@);
    }
    true
}

/// The value of the first field named `name`.
fn header_get(headers: &Vec<(String, String)>, name: &str) -> (r: Option<String>)
    ensures
        spec_opt_string(r) == spec_header_get(spec_pairs_view(headers@), name@),
{
    let ghost h = spec_pairs_view(headers@);
    proof {
        lemma_first_pos(h, spec_field_is(name@));
    }
    let mut i: usize = 0;
    while i < headers.len()
        invariant
            i <= headers@.len(),
            h == spec_pairs_view(headers@),
            forall|j: int| 0 <= j < i ==> !spec_field_is(name@)(#[trigger] h[j]),
        decreases headers.len() - i,
    {
        assert(h[i as int] == (headers@[i as int].0@, headers@[i as int].1@));
        if str_eq(headers[i].0.as_str(), name) {
            proof {
                lemma_first_pos_at(h, spec_field_is(name@), i as int);
            }
            return Some(headers[i].1.clone());
        }
        i = i + 1;
    }
    None
}

/// The text `"rejected: "` and the status code.
fn rejected_reason(status: u16) -> (r: String)
    ensures
        r@ == "rejected: "@ + spec_decimal(status as nat),
{
    let digits = format_u16(status);
    let mut bytes = vstd::slice::slice_to_vec("rejected: ".as_bytes());
    let mut d = vstd::slice::slice_to_vec(digits.as_str().as_bytes());
    bytes.append(&mut d);
    let ghost chars = "rejected: "@ + spec_decimal(status as nat);
    proof {
        lemma_encode_utf8_concat("rejected: "@, spec_decimal(status as nat));
        vstd::utf8::encode_utf8_valid_utf8(chars);
        encode_utf8_decode_utf8(chars);
        assert(bytes@ =~= encode_utf8(chars));
    }
    match crate::moq_protocol::types::string_from_utf8(bytes) {
        Some(s) => s,
        None => String::new(),
    }
}

/// The value of the first field named `name`, or nothing.
pub open spec fn spec_header_or_empty(h: Seq<(Seq<char>, Seq<char>)>, name: Seq<char>) -> Seq<char> {
    match spec_header_get(h, name) {
        Some(v) => v,
        None => Seq::empty(),
    }
}

/// Data on data stream `quic_stream_id` of session `sid`: counted
/// against the session's data limit and reported, as is the stream's end.
pub open spec fn spec_process_wt_data(v: ConnView, quic_stream_id: u64, sid: u64, data: Seq<u8>, fin: bool) -> ConnView {
    match spec_session(v, sid) {
        None => v,
        Some(s) => {
            let v1 = if data.len() > 0 {
                spec_emit(
                    spec_with_session(v, sid, |x: SessionView| SessionView {
                        flow: FlowView { data_received: (x.flow.data_received + data.len()) as u64, ..x.flow },
                        ..x
                    }),
                    EventView::StreamData(quic_stream_id),
                )
            } else {
                v
            };
            if fin { spec_emit(v1, EventView::StreamFinished(quic_stream_id)) } else { v1 }
        },
    }
}

/// Attaching an incoming data stream whose header was read to its
/// session: the session ID must be that of a client-initiated
/// bidirectional stream; a stream of an unknown session stays unattached.
pub open spec fn spec_associate(v: ConnView, w: WtStreamView) -> (core::result::Result<(), ErrorKind>, ConnView) {
    let sid = w.progress.session_id;
    if sid % 4 != 0 {
        (Err(ErrorKind::InvalidSessionId(sid)), v)
    } else {
        let v1 = ConnView { wt_map: spec_put(v.wt_map, w.quic_stream_id, sid), ..v };
        match spec_session(v1, sid) {
            None => (Ok(()), v1),
            Some(_) => {
                let bidi = w.stream_type == StreamType::BiDirectional;
                let v2 = spec_with_session(v1, sid, |x: SessionView| SessionView {
                    flow: if bidi {
                        FlowView { peer_streams_opened_bidi: (x.flow.peer_streams_opened_bidi + 1) as u64, ..x.flow }
                    } else {
                        FlowView { peer_streams_opened_uni: (x.flow.peer_streams_opened_uni + 1) as u64, ..x.flow }
                    },
                    streams: spec_register_stream(x.streams, w),
                    ..x
                });
                (Ok(()), spec_emit(v2, if bidi {
                    EventView::BidiStreamReceived { session_id: sid, stream_id: w.quic_stream_id }
                } else {
                    EventView::UniStreamReceived { session_id: sid, stream_id: w.quic_stream_id }
                }))
            },
        }
    }
}

/// A session created by an extended CONNECT request on `stream_id`,
/// reported with the request's fields.
pub open spec fn spec_create_session(v: ConnView, stream_id: u64, h: Seq<(Seq<char>, Seq<char>)>) -> ConnView {
    let authority = spec_header_or_empty(h, ":authority"@);
    let path = spec_header_or_empty(h, ":path"@);
    let origin = spec_header_get(h, "origin"@);
    let s = SessionView { authority, path, origin, ..spec_new_session(v.config, stream_id) };
    spec_emit(
        ConnView {
            sessions: spec_put_session(v.sessions, s),
            connect_map: spec_put(v.connect_map, stream_id, stream_id),
            ..v
        },
        EventView::SessionRequest { session_id: stream_id, authority, path, origin, headers: h },
    )
}

/// Sessions created by the deferred requests `ds`, in order.
pub open spec fn spec_create_sessions(v: ConnView, ds: Seq<(u64, Seq<(Seq<char>, Seq<char>)>)>) -> ConnView
    decreases ds.len(),
{
    if ds.len() == 0 {
        v
    } else {
        spec_create_sessions(spec_create_session(v, ds[0].0, ds[0].1), ds.skip(1))
    }
}

/// A new stream or data limit from the peer: taken when it does not
/// shrink an enforced limit, else the session closes.
pub open spec fn spec_apply_limit(v: ConnView, sid: u64, cur: u64, new: u64, f: spec_fn(SessionView) -> SessionView) -> ConnView {
    match spec_session(v, sid) {
        None => v,
        Some(s) => if s.flow.enabled && new < cur {
            spec_handle_close(v, sid, 0, "flow control error"@)
        } else {
            spec_with_session(v, sid, f)
        },
    }
}

/// The effect of capsule `c` received on the CONNECT stream of session
/// `sid`.
pub open spec fn spec_process_capsule(v: ConnView, sid: u64, c: CapsuleView) -> ConnView {
    let cur = match spec_session(v, sid) { Some(s) => s.flow, None => spec_new_flow(0, 0, 0) };
    match c {
        CapsuleView::CloseSession { error_code, error_message } => spec_handle_close(v, sid, error_code, error_message),
        CapsuleView::DrainSession => spec_emit(
            spec_with_session(v, sid, |x: SessionView| SessionView { state: SessionState::Draining, ..x }),
            EventView::SessionDraining(sid),
        ),
        CapsuleView::MaxStreamsBidi(m) => spec_apply_limit(v, sid, cur.peer_max_streams_bidi, m,
            |x: SessionView| SessionView { flow: FlowView { peer_max_streams_bidi: m, ..x.flow }, ..x }),
        CapsuleView::MaxStreamsUni(m) => spec_apply_limit(v, sid, cur.peer_max_streams_uni, m,
            |x: SessionView| SessionView { flow: FlowView { peer_max_streams_uni: m, ..x.flow }, ..x }),
        CapsuleView::MaxData(m) => spec_apply_limit(v, sid, cur.peer_max_data, m,
            |x: SessionView| SessionView { flow: FlowView { peer_max_data: m, ..x.flow }, ..x }),
        _ => v,
    }
}

/// A WT_MAX_STREAMS_BIDI, WT_MAX_STREAMS_UNI or WT_MAX_DATA capsule that
/// does not shrink an enforced limit sets that one limit of the session it
/// arrives on, and leaves its other two peer limits, its state and its
/// streams as they were.
pub proof fn law_limit_capsules(v: ConnView, sid: u64, m: u64)
    requires
        spec_session(v, sid) is Some,
    ensures
        ({
            let s = spec_session(v, sid)->Some_0;
            let t = spec_session(spec_process_capsule(v, sid, CapsuleView::MaxStreamsUni(m)), sid);
            !(s.flow.enabled && m < s.flow.peer_max_streams_uni) ==> t is Some
                && t->Some_0.flow.peer_max_streams_uni == m
                && t->Some_0.flow.peer_max_streams_bidi == s.flow.peer_max_streams_bidi
                && t->Some_0.flow.peer_max_data == s.flow.peer_max_data
                && t->Some_0.state == s.state && t->Some_0.streams == s.streams
        }),
        ({
            let s = spec_session(v, sid)->Some_0;
            let t = spec_session(spec_process_capsule(v, sid, CapsuleView::MaxStreamsBidi(m)), sid);
            !(s.flow.enabled && m < s.flow.peer_max_streams_bidi) ==> t is Some
                && t->Some_0.flow.peer_max_streams_bidi == m
                && t->Some_0.flow.peer_max_streams_uni == s.flow.peer_max_streams_uni
                && t->Some_0.flow.peer_max_data == s.flow.peer_max_data
                && t->Some_0.state == s.state && t->Some_0.streams == s.streams
        }),
        ({
            let s = spec_session(v, sid)->Some_0;
            let t = spec_session(spec_process_capsule(v, sid, CapsuleView::MaxData(m)), sid);
            !(s.flow.enabled && m < s.flow.peer_max_data) ==> t is Some
                && t->Some_0.flow.peer_max_data == m
                && t->Some_0.flow.peer_max_streams_bidi == s.flow.peer_max_streams_bidi
                && t->Some_0.flow.peer_max_streams_uni == s.flow.peer_max_streams_uni
                && t->Some_0.state == s.state && t->Some_0.streams == s.streams
        }),
{
    let i = spec_session_pos(v.sessions, sid);
    lemma_first_pos(v.sessions, spec_session_is(sid));
    let s = v.sessions[i];
    let fu = |x: SessionView| SessionView { flow: FlowView { peer_max_streams_uni: m, ..x.flow }, ..x };
    let fb = |x: SessionView| SessionView { flow: FlowView { peer_max_streams_bidi: m, ..x.flow }, ..x };
    let fd = |x: SessionView| SessionView { flow: FlowView { peer_max_data: m, ..x.flow }, ..x };
    let su = v.sessions.update(i, fu(s));
    let sb = v.sessions.update(i, fb(s));
    let sd = v.sessions.update(i, fd(s));
    assert forall|j: int| 0 <= j < i implies !spec_session_is(sid)(#[trigger] su[j]) by {
        assert(su[j] == v.sessions[j]);
    }
    assert forall|j: int| 0 <= j < i implies !spec_session_is(sid)(#[trigger] sb[j]) by {
        assert(sb[j] == v.sessions[j]);
    }
    assert forall|j: int| 0 <= j < i implies !spec_session_is(sid)(#[trigger] sd[j]) by {
        assert(sd[j] == v.sessions[j]);
    }
    lemma_first_pos_at(su, spec_session_is(sid), i);
    lemma_first_pos_at(sb, spec_session_is(sid), i);
    lemma_first_pos_at(sd, spec_session_is(sid), i);
}

/// The effect of decoded capsules, in order; a capsule that does not
/// decode closes the session.
pub open spec fn spec_capsules_effect(v: ConnView, sid: u64, rs: Seq<core::result::Result<CapsuleView, ErrorKind>>) -> ConnView
    decreases rs.len(),
{
    if rs.len() == 0 {
        v
    } else {
        match rs[0] {
            Ok(c) => spec_capsules_effect(spec_process_capsule(v, sid, c), sid, rs.skip(1)),
            Err(_) => spec_handle_close(v, sid, 0, "capsule error"@),
        }
    }
}

/// Body data on a CONNECT stream: capsules of the session; an
/// error once the session is closed.
pub open spec fn spec_process_connect_data(v: ConnView, stream_id: u64, data: Seq<u8>)
    -> (core::result::Result<(), ErrorKind>, ConnView)
{
    match spec_lookup(v.connect_map, stream_id) {
        None => (Ok(()), v),
        Some(sid) => match spec_session(v, sid) {
            None => (Ok(()), v),
            Some(s) => if s.state == SessionState::Closed {
                (Err(ErrorKind::ProtocolViolation), v)
            } else {
                let (rs, rem) = spec_parse_capsules(s.capsule_buf + data);
                let v1 = spec_with_session(v, sid, |x: SessionView| SessionView { capsule_buf: rem, ..x });
                (Ok(()), spec_capsules_effect(v1, sid, rs))
            },
        },
    }
}

/// The status code of a response, or 0.
pub open spec fn spec_status(h: Seq<(Seq<char>, Seq<char>)>) -> u16 {
    match spec_header_get(h, ":status"@) {
        Some(st) => match spec_parse_u16(encode_utf8(st)) {
            Some(n) => n,
            None => 0,
        },
        None => 0,
    }
}

/// The fields of a request or response on stream `stream_id`: a server
/// takes an extended CONNECT for WebTransport (deferred until the peer's
/// SETTINGS); a client takes the response to its CONNECT, and a 2xx
/// establishes the session with the protocol the server chose among those
/// offered.
pub open spec fn spec_process_h3_headers(v: ConnView, stream_id: u64, h: Seq<(Seq<char>, Seq<char>)>) -> ConnView {
    if v.is_server {
        if spec_header_or_empty(h, ":method"@) == "CONNECT"@ && spec_header_or_empty(h, ":protocol"@) == "webtransport"@ {
            if !v.h3.settings_received {
                ConnView { deferred: v.deferred.push((stream_id, h)), ..v }
            } else {
                spec_create_session(v, stream_id, h)
            }
        } else {
            v
        }
    } else {
        match spec_lookup(v.connect_map, stream_id) {
            None => v,
            Some(sid) => {
                let status = spec_status(h);
                if 200 <= status < 300 {
                    let ps = v.h3.peer_settings;
                    let received = v.h3.settings_received;
                    let proto = spec_header_get(h, "wt-protocol"@);
                    let v1 = spec_with_session(v, sid, |x: SessionView| SessionView {
                        state: SessionState::Established,
                        flow: if received { spec_peer_limits(x.flow, ps) } else { x.flow },
                        negotiated_protocol: match proto {
                            Some(p) => if x.offered_protocols.contains(p) { Some(p) } else { x.negotiated_protocol },
                            None => x.negotiated_protocol,
                        },
                        ..x
                    });
                    spec_emit(v1, EventView::SessionEstablished(sid))
                } else {
                    spec_handle_close(v, sid, 0, "rejected: "@ + spec_decimal(status as nat))
                }
            },
        }
    }
}

/// Whether new SETTINGS reduce a limit remembered from an earlier
/// connection.
pub open spec fn spec_settings_reduced(ps: PeerSettingsView, prev: PeerSettingsView) -> bool {
    (ps.wt_max_sessions matches Some(n) && prev.wt_max_sessions matches Some(o) && n < o)
        || ps.wt_initial_max_streams_bidi < prev.wt_initial_max_streams_bidi
        || ps.wt_initial_max_streams_uni < prev.wt_initial_max_streams_uni
        || ps.wt_initial_max_data < prev.wt_initial_max_data
}

/// Every session with the peer's initial limits.
pub open spec fn spec_all_peer_limits(ss: Seq<SessionView>, ps: PeerSettingsView) -> Seq<SessionView> {
    ss.map_values(|x: SessionView| SessionView { flow: spec_peer_limits(x.flow, ps), ..x })
}

/// The effect of one HTTP/3 event.
pub open spec fn spec_h3_event_effect(v: ConnView, e: H3EventView) -> (core::result::Result<(), ErrorKind>, ConnView) {
    match e {
        H3EventView::SettingsReceived(ps) => if v.previous_settings matches Some(prev) && spec_settings_reduced(ps, prev) {
            (Err(ErrorKind::H3SettingsError), v)
        } else {
            let v1 = ConnView { sessions: spec_all_peer_limits(v.sessions, ps), deferred: Seq::empty(), ..v };
            (Ok(()), spec_create_sessions(v1, v.deferred))
        },
        H3EventView::HeadersReceived { stream_id, headers } => (Ok(()), spec_process_h3_headers(v, stream_id, headers)),
        H3EventView::DataReceived { stream_id, data } => spec_process_connect_data(v, stream_id, data),
        H3EventView::GoAway { .. } => (Ok(()), spec_emit(v, EventView::GoAway)),
        H3EventView::StreamFinished(id) => match spec_lookup(v.connect_map, id) {
            Some(sid) => (Ok(()), spec_handle_close(v, sid, 0, Seq::empty())),
            None => (Ok(()), v),
        },
    }
}

/// The effect of HTTP/3 events, in order, up to the first error.
pub open spec fn spec_h3_events_effect(v: ConnView, es: Seq<H3EventView>) -> (core::result::Result<(), ErrorKind>, ConnView)
    decreases es.len(),
{
    if es.len() == 0 {
        (Ok(()), v)
    } else {
        match spec_h3_event_effect(v, es[0]) {
            (Ok(_), v1) => spec_h3_events_effect(v1, es.skip(1)),
            (Err(k), v1) => (Err(k), v1),
        }
    }
}

/// Taking the events the HTTP/3 layer produced.
pub open spec fn spec_process_h3_events(v: ConnView) -> (core::result::Result<(), ErrorKind>, ConnView) {
    spec_h3_events_effect(ConnView { h3: H3View { events: Seq::empty(), ..v.h3 }, ..v }, v.h3.events)
}


/// `s` with `w` in place of the stream with its ID, or with `w` added.
pub open spec fn spec_put_pending(s: Seq<WtStreamView>, w: WtStreamView) -> Seq<WtStreamView> {
    let i = spec_first_pos(s, spec_stream_is(w.quic_stream_id));
    if i < 0 { s.push(w) } else { s.update(i, w) }
}

/// What follows reading (part of) the header of incoming stream `w`: a
/// complete header attaches the stream to its session, and the bytes
/// after it are its first data; an incomplete one waits for more.
pub open spec fn spec_after_header(v: ConnView, w: WtStreamView, extra: Seq<u8>, fin: bool)
    -> (core::result::Result<(), ErrorKind>, ConnView)
{
    if w.progress.state == HeaderState::Done {
        let (r, v2) = spec_associate(v, w);
        match r {
            Err(k) => (Err(k), v2),
            Ok(_) => if extra.len() > 0 || fin {
                (Ok(()), spec_process_wt_data(v2, w.quic_stream_id, w.progress.session_id, extra, fin))
            } else {
                (Ok(()), v2)
            },
        }
    } else {
        (Ok(()), ConnView { pending_wt: spec_put_pending(v.pending_wt, w), ..v })
    }
}

/// More bytes on an incoming stream whose header is incomplete.
pub open spec fn spec_process_pending(v: ConnView, quic_stream_id: u64, data: Seq<u8>, fin: bool)
    -> (core::result::Result<(), ErrorKind>, ConnView)
{
    let i = spec_first_pos(v.pending_wt, spec_stream_is(quic_stream_id));
    if i < 0 {
        (Err(ErrorKind::StreamNotFound(quic_stream_id)), v)
    } else {
        let w = v.pending_wt[i];
        let v1 = ConnView { pending_wt: v.pending_wt.remove(i), ..v };
        let (res, p) = if w.progress.header_len > 0 && w.stream_type == StreamType::UniDirectional {
            let p0 = if w.progress.state == HeaderState::AwaitingSignal {
                HeaderProgress { state: HeaderState::AwaitingSessionId, ..w.progress }
            } else {
                w.progress
            };
            let (n, q) = spec_read_session_id(p0, data, 0);
            (Some(n), q)
        } else {
            spec_read_header(w.progress, w.stream_type, data, 0)
        };
        match res {
            None => (Err(ErrorKind::ProtocolViolation), v1),
            Some(n) => spec_after_header(v1, WtStreamView { progress: p, ..w }, data.skip(n as int), fin),
        }
    }
}

/// A header-less incoming stream of type `t`.
pub open spec fn spec_incoming_stream(quic_stream_id: u64, t: StreamType, header_len: u64) -> WtStreamView {
    WtStreamView {
        quic_stream_id,
        stream_type: t,
        progress: HeaderProgress {
            state: HeaderState::AwaitingSignal,
            signal_bytes: Seq::empty(),
            id_bytes: Seq::empty(),
            session_id: 0,
            header_len,
        },
    }
}

/// `Ok(true)` in place of `Ok(())`.
pub open spec fn spec_taken(x: (core::result::Result<(), ErrorKind>, ConnView)) -> (core::result::Result<bool, ErrorKind>, ConnView) {
    match x.0 {
        Ok(_) => (Ok(true), x.1),
        Err(k) => (Err(k), x.1),
    }
}

/// The first bytes of a stream nobody classified yet: a
/// unidirectional stream by its stream type (HTTP/3 or WebTransport); a
/// bidirectional one by its first varint, WT_STREAM or an HTTP/3 request.
pub open spec fn spec_classify(v: ConnView, quic_stream_id: u64, data: Seq<u8>, fin: bool)
    -> (core::result::Result<bool, ErrorKind>, ConnView)
{
    let v0 = ConnView { classified: v.classified.push(quic_stream_id), ..v };
    if (quic_stream_id / 2) % 2 != 0 {
        let (r, h) = spec_classify_uni(v0.h3, quic_stream_id, data);
        let v1 = ConnView { h3: h, ..v0 };
        match r {
            Err(k) => (Err(k), v1),
            Ok(None) => (Ok(false), v1),
            Ok(Some(t)) => if t == WT_UNI_STREAM_TYPE {
                let n = spec_decode_varint(data).unwrap().1;
                let w0 = spec_incoming_stream(quic_stream_id, StreamType::UniDirectional, n as u64);
                let remaining = data.skip(n as int);
                if remaining.len() > 0 {
                    let (m, p) = spec_read_session_id(
                        HeaderProgress { state: HeaderState::AwaitingSessionId, ..w0.progress }, remaining, 0);
                    spec_taken(spec_after_header(v1, WtStreamView { progress: p, ..w0 }, remaining.skip(m as int), fin))
                } else {
                    (Ok(true), ConnView { pending_wt: spec_put_pending(v1.pending_wt, w0), ..v1 })
                }
            } else {
                spec_taken(spec_process_h3_events(v1))
            },
        }
    } else if data.len() == 0 {
        (Ok(false), v0)
    } else {
        match spec_decode_varint(data) {
            None => (Err(ErrorKind::BufferTooShort), v0),
            Some((first, _)) => if first == WT_BIDI_SIGNAL {
                let w0 = spec_incoming_stream(quic_stream_id, StreamType::BiDirectional, 0);
                let (res, p) = spec_read_header(w0.progress, StreamType::BiDirectional, data, 0);
                match res {
                    None => (Err(ErrorKind::ProtocolViolation), v0),
                    Some(n) => spec_taken(spec_after_header(v0, WtStreamView { progress: p, ..w0 }, data.skip(n as int), fin)),
                }
            } else {
                let h3a = H3View {
                    streams: crate::webtransport::h3::spec_insert_stream(v0.h3.streams, quic_stream_id, StreamRole::Request),
                    ..v0.h3
                };
                let (r1, h) = spec_h3_process(h3a, quic_stream_id, data, fin);
                let v1 = ConnView { h3: h, ..v0 };
                match r1 {
                    Err(k) => (Err(k), v1),
                    Ok(_) => spec_taken(spec_process_h3_events(v1)),
                }
            },
        }
    }
}

/// Bytes received on QUIC stream `quic_stream_id`: on a data stream, its
/// data; on a stream whose header is incomplete, more of it; on an HTTP/3
/// stream, its frames and what they produce; on a new stream, its
/// classification. Says whether the WebTransport layer took the bytes.
pub open spec fn spec_process_stream_data(v: ConnView, quic_stream_id: u64, data: Seq<u8>, fin: bool)
    -> (core::result::Result<bool, ErrorKind>, ConnView)
{
    match spec_lookup(v.wt_map, quic_stream_id) {
        Some(sid) => (Ok(true), spec_process_wt_data(v, quic_stream_id, sid, data, fin)),
        None => if spec_first_pos(v.pending_wt, spec_stream_is(quic_stream_id)) >= 0 {
            spec_taken(spec_process_pending(v, quic_stream_id, data, fin))
        } else if spec_stream_pos(v.h3.streams, quic_stream_id) >= 0 {
            let (r1, h) = spec_h3_process(v.h3, quic_stream_id, data, fin);
            let v1 = ConnView { h3: h, ..v };
            match r1 {
                Err(k) => (Err(k), v1),
                Ok(_) => spec_taken(spec_process_h3_events(v1)),
            }
        } else if !v.classified.contains(quic_stream_id) {
            spec_classify(v, quic_stream_id, data, fin)
        } else {
            (Ok(false), v)
        },
    }
}


/// The protocols as a list of quoted strings.
fn protocol_list(protocols: &[&str]) -> (r: String)
    ensures
        r@ == spec_protocol_list(spec_str_list_view(protocols@)),
{
    let ghost pv = spec_str_list_view(protocols@);
    let mut bytes: Vec<u8> = Vec::new();
    let mut i: usize = 0;
    proof {
        assert(pv.take(0) =~= Seq::<Seq<char>>::empty());
        assert(encode_utf8(Seq::<char>::empty()) =~= Seq::<u8>::empty());
    }
    while i < protocols.len()
        invariant
            i <= protocols@.len(),
            pv == spec_str_list_view(protocols@),
            bytes@ == encode_utf8(spec_protocol_list(pv.take(i as int))),
        decreases protocols.len() - i,
    {
        let ghost before = spec_protocol_list(pv.take(i as int));
        let ghost sep: Seq<char> = if i == 0 { seq!['"'] } else { seq![',', ' ', '"'] };
        if i > 0 {
            bytes.push(44u8);
            bytes.push(32u8);
        }
        bytes.push(34u8);
        let mut p = vstd::slice::slice_to_vec(protocols[i].as_bytes());
        bytes.append(&mut p);
        bytes.push(34u8);
        proof {
            let q = pv[i as int];
            assert(pv.take(i + 1).drop_last() =~= pv.take(i as int));
            assert(pv.take(i + 1).last() == q);
            let after = spec_protocol_list(pv.take(i + 1));
            assert(after == before + sep + q + seq!['"']);
            lemma_ascii_bytes(sep);
            lemma_ascii_bytes(seq!['"']);
            lemma_encode_utf8_concat(before, sep);
            lemma_encode_utf8_concat(before + sep, q);
            lemma_encode_utf8_concat(before + sep + q, seq!['"']);
            assert(bytes@ =~= encode_utf8(after));
        }
        i = i + 1;
    }
    assert(pv.take(i as int) =~= pv);
    let ghost chars = spec_protocol_list(pv);
    proof {
        vstd::utf8::encode_utf8_valid_utf8(chars);
        encode_utf8_decode_utf8(chars);
    }
    match crate::moq_protocol::types::string_from_utf8(bytes) {
        Some(s) => s,
        None => String::new(),
    }
}

/// The separators of the protocol list encode as their ASCII bytes.
proof fn lemma_ascii_bytes(c: Seq<char>)
    requires
        c == seq!['"'] || c == seq![',', ' ', '"'],
    ensures
        c == seq!['"'] ==> encode_utf8(c) == seq![34u8],
        c == seq![',', ' ', '"'] ==> encode_utf8(c) == seq![44u8, 32u8, 34u8],
{
    vstd::utf8::is_ascii_chars_encode_utf8(c);
    if c == seq!['"'] {
        assert(encode_utf8(c) =~= seq![34u8]);
    } else {
        assert(encode_utf8(c) =~= seq![44u8, 32u8, 34u8]);
    }
}

/// A datagram written for a session whose ID is a client bidirectional
/// stream ID reads back as that session's, with the same payload.
pub proof fn law_datagram_roundtrip(id: u64, payload: Seq<u8>)
    requires
        id % 4 == 0,
    ensures
        ({
            let d = spec_datagram(id, payload);
            &&& spec_decode_varint(d) matches Some((q, n))
            &&& q * 4 == id
            &&& d.skip(n as int) == payload
        }),
{
    let q = id / 4;
    assert(q <= spec_max_varint());
    crate::quic_varint::lemma_varint_roundtrip(q, payload);
    crate::quic_varint::lemma_varint_bytes_len(q);
    let d = spec_datagram(id, payload);
    assert(d.skip(spec_varint_bytes(q).len() as int) =~= payload);
}

/// A session is closed, and its closure reported, only once: closing it
/// again changes nothing.
pub proof fn law_close_once(v: ConnView, id: u64, code: u32, reason: Seq<char>, code2: u32, reason2: Seq<char>)
    requires
        spec_session(v, id) is Some,
    ensures
        spec_handle_close(spec_handle_close(v, id, code, reason), id, code2, reason2)
            == spec_handle_close(v, id, code, reason),
        spec_session(spec_handle_close(v, id, code, reason), id) matches Some(s) && s.state == SessionState::Closed,
{
    lemma_first_pos(v.sessions, spec_session_is(id));
    let v1 = spec_handle_close(v, id, code, reason);
    let i = spec_session_pos(v.sessions, id);
    if v.sessions[i].state != SessionState::Closed {
        let ss = v.sessions.update(i, SessionView { state: SessionState::Closed, ..v.sessions[i] });
        assert(v1.sessions == ss);
        assert forall|j: int| 0 <= j < i implies !spec_session_is(id)(#[trigger] ss[j]) by {
            assert(ss[j] == v.sessions[j]);
        }
        lemma_first_pos_at(ss, spec_session_is(id), i);
    }
}

/// Once the settings of an earlier connection are remembered for 0-RTT, peer
/// SETTINGS that lower any of their limits are refused with
/// H3_SETTINGS_ERROR and change nothing; SETTINGS that keep or raise every
/// limit are taken.
pub proof fn law_0rtt_limits_kept(v: ConnView, prev: PeerSettingsView, ps: PeerSettingsView)
    ensures
        ({
            let v0 = ConnView { previous_settings: Some(prev), ..v };
            let (x, v1) = spec_h3_event_effect(v0, H3EventView::SettingsReceived(ps));
            &&& spec_settings_reduced(ps, prev) ==> x == Err::<(), ErrorKind>(ErrorKind::H3SettingsError) && v1 == v0
            &&& !spec_settings_reduced(ps, prev) ==> x is Ok
        }),
{
}

impl Connection {
    /// The connection's invariant: the streams whose header is still being
    /// read are sound, with short headers so far.
    pub closed spec fn wf(&self) -> bool {
        forall|i: int| 0 <= i < self.pending_wt_streams@.len() ==> {
            &&& (#[trigger] self.pending_wt_streams@[i]).wf()
            &&& self.pending_wt_streams@[i].header_len <= 16
        }
    }

    pub fn new(is_server: bool, config: Config) -> (c: Self)
        ensures
            c.wf(),
            c@.h3 == spec_h3_new(is_server, config),
            c@.is_server == is_server,
            c@.config == config,
            c@.sessions.len() == 0,
            c@.connect_map.len() == 0,
            c@.wt_map.len() == 0,
            c@.pending_wt.len() == 0,
            c@.events.len() == 0,
            c@.classified.len() == 0,
            !c@.h3_initialized,
            c@.deferred.len() == 0,
            c@.previous_settings is None,
    {
        let h3 = H3Connection::new(is_server, config.duplicate());
        Connection {
            h3,
            is_server,
            config,
            sessions: Vec::new(),
            connect_stream_to_session: Vec::new(),
            wt_stream_to_session: Vec::new(),
            pending_wt_streams: Vec::new(),
            pending_events: Vec::new(),
            classified_streams: Vec::new(),
            h3_initialized: false,
            deferred_requests: Vec::new(),
            previous_settings: None,
        }
    }

    /// Starts HTTP/3; returns the (stream ID, data) pairs to write, and
    /// nothing once started.
    pub fn initialize(&mut self) -> (r: Result<Vec<(u64, Vec<u8>)>>)
        requires
            old(self).wf(),
            old(self)@.h3.next_uni <= u64::MAX - 12,
        ensures
            final(self).wf(),
            old(self)@.h3_initialized ==> (r matches Ok(v) && v@.len() == 0 && final(self)@ == old(self)@),
            !old(self)@.h3_initialized ==> ({
                let (s, h) = spec_initialize(old(self)@.h3);
                &&& final(self)@ == (ConnView { h3_initialized: true, h3: h, ..old(self)@ })
                &&& match s {
                    Ok(x) => r matches Ok(y) && spec_sends_view(y@) == x,
                    Err(k) => r matches Err(e) && e.kind() == k,
                }
            }),
    {
        if self.h3_initialized {
            return Ok(Vec::new());
        }
        self.h3_initialized = true;
        self.h3.initialize()
    }

    fn session_index(&self, id: u64) -> (r: Option<usize>)
        ensures
            match r {
                Some(i) => spec_session_pos(self@.sessions, id) == i && i < self@.sessions.len(),
                None => spec_session_pos(self@.sessions, id) < 0,
            },
    {
        proof {
            lemma_first_pos(self@.sessions, spec_session_is(id));
        }
        let mut i: usize = 0;
        while i < self.sessions.len()
            invariant
                i <= self@.sessions.len(),
                self@.sessions.len() == self.sessions@.len(),
                forall|j: int| 0 <= j < i ==> !spec_session_is(id)(#[trigger] self@.sessions[j]),
            decreases self.sessions.len() - i,
        {
            assert(self@.sessions[i as int] == self.sessions@[i as int]@);
            if self.sessions[i].id == id {
                proof {
                    lemma_first_pos_at(self@.sessions, spec_session_is(id), i as int);
                }
                return Some(i);
            }
            i = i + 1;
        }
        None
    }

    /// Takes session `i` out of the list.
    fn take_session(&mut self, i: usize) -> (s: Session)
        requires
            i < old(self)@.sessions.len(),
        ensures
            s@ == old(self)@.sessions[i as int],
            final(self)@ == (ConnView { sessions: old(self)@.sessions.remove(i as int), ..old(self)@ }),
            final(self).pending_wt_streams == old(self).pending_wt_streams,
    {
        let s = self.sessions.remove(i);
        assert(self@.sessions =~= old(self)@.sessions.remove(i as int));
        s
    }

    /// Puts session `s` back at position `i`.
    fn restore_session(&mut self, i: usize, s: Session)
        requires
            i <= old(self)@.sessions.len(),
        ensures
            final(self)@ == (ConnView { sessions: old(self)@.sessions.insert(i as int, s@), ..old(self)@ }),
            final(self).pending_wt_streams == old(self).pending_wt_streams,
    {
        let ghost sv = s@;
        self.sessions.insert(i, s);
        assert(self@.sessions =~= old(self)@.sessions.insert(i as int, sv));
    }

    /// Adds session `s`, in place of the session with its ID if there is one.
    fn put_session(&mut self, s: Session)
        ensures
            final(self)@ == (ConnView { sessions: spec_put_session(old(self)@.sessions, s@), ..old(self)@ }),
            final(self).pending_wt_streams == old(self).pending_wt_streams,
    {
        proof {
            lemma_first_pos(old(self)@.sessions, spec_session_is(s.id));
        }
        let ghost sv = s@;
        match self.session_index(s.id) {
            Some(i) => {
                self.take_session(i);
                self.restore_session(i, s);
                assert(self@.sessions =~= old(self)@.sessions.update(i as int, sv));
            },
            None => {
                self.sessions.push(s);
                assert(self@.sessions =~= old(self)@.sessions.push(sv));
            },
        }
    }

    fn emit(&mut self, e: Event)
        ensures
            final(self)@ == spec_emit(old(self)@, e@),
            final(self).pending_wt_streams == old(self).pending_wt_streams,
    {
        let ghost ev = e@;
        self.pending_events.push(e);
        assert(self@.events =~= old(self)@.events.push(ev));
    }

    /// The number of sessions that are not closed.
    fn active_sessions(&self) -> (n: u64)
        ensures
            n == spec_active_sessions(self@.sessions),
    {
        let mut n: u64 = 0;
        let mut i: usize = 0;
        let ghost ss = self@.sessions;
        while i < self.sessions.len()
            invariant
                i <= ss.len(),
                ss == self@.sessions,
                ss.len() == self.sessions@.len(),
                n == spec_active_sessions(ss.take(i as int)),
                n <= i,
            decreases self.sessions.len() - i,
        {
            assert(ss.take(i + 1) =~= ss.take(i as int).push(ss[i as int]));
            assert(ss[i as int] == self.sessions@[i as int]@);
            proof {
                ss.take(i as int).lemma_filter_push(ss[i as int], spec_is_active());
                ss.take(i as int).lemma_filter_len(spec_is_active());
            }
            if self.sessions[i].state != SessionState::Closed {
                n = n + 1;
            }
            i = i + 1;
        }
        assert(ss.take(i as int) =~= ss);
        n
    }

    /// Opens a session as a client; returns its ID and the bytes of its
    /// CONNECT request.
    pub fn connect(
        &mut self,
        authority: &str,
        path: &str,
        origin: Option<&str>,
        extra_headers: &[(&str, &str)],
    ) -> (r: Result<(u64, Vec<u8>)>)
        requires
            old(self).wf(),
            old(self)@.h3.next_bidi <= u64::MAX - 4,
        ensures
            final(self).wf(),
            ({
                let (x, v) = spec_connect(old(self)@, authority@, path@, spec_opt_str(origin), spec_strs_view(extra_headers@));
                &&& final(self)@ == v
                &&& match x {
                    Ok((id, b)) => r matches Ok((i, d)) && i == id && d@ == b,
                    Err(k) => r matches Err(e) && e.kind() == k,
                }
            }),
    {
        if !self.h3.has_settings() {
            return Err(Error::ProtocolViolation("cannot connect before peer SETTINGS received".to_owned()));
        }
        let active_sessions = self.active_sessions();
        let ps = self.h3.peer_settings();
        match ps.wt_max_sessions {
            Some(max) => {
                if active_sessions >= max {
                    return Err(Error::SessionLimitReached);
                }
            },
            None => {},
        }
        let fc_enabled = ps.wt_initial_max_streams_bidi > 0 || ps.wt_initial_max_streams_uni > 0
            || ps.wt_initial_max_data > 0;
        if !fc_enabled && active_sessions >= 1 {
            return Err(Error::SessionLimitReached);
        }
        let (stream_id, data) = self.h3.send_connect_request(authority, path, origin, extra_headers)?;
        let session = Session::new(
            stream_id,
            self.config.initial_max_streams_bidi,
            self.config.initial_max_streams_uni,
            self.config.initial_max_data,
        );
        assert(session@ == spec_new_session(self.config, stream_id));
        self.put_session(session);
        pair_put(&mut self.connect_stream_to_session, stream_id, stream_id);
        Ok((stream_id, data))
    }

    /// Accepts session `session_id` as a server; returns the bytes of the
    /// 200 response.
    pub fn accept_session(&mut self, session_id: u64, extra_headers: &[(&str, &str)]) -> (r: Result<Vec<u8>>)
        requires
            old(self).wf(),
        ensures
            final(self).wf(),
            ({
                let (x, v) = spec_accept(old(self)@, session_id, spec_strs_view(extra_headers@));
                &&& final(self)@ == v
                &&& match x {
                    Ok(b) => r matches Ok(d) && d@ == b,
                    Err(k) => r matches Err(e) && e.kind() == k,
                }
            }),
    {
        let i = match self.session_index(session_id) {
            Some(i) => i,
            None => {
                return Err(Error::SessionNotFound(session_id));
            },
        };
        if self.sessions[i].state != SessionState::Connecting {
            assert(self.sessions@[i as int]@ == self@.sessions[i as int]);
            return Err(Error::ProtocolViolation("session not in connecting state".to_owned()));
        }
        let mut session = self.take_session(i);
        session.state = SessionState::Established;
        if self.h3.has_settings() {
            let ps = self.h3.peer_settings();
            session.flow_control.set_peer_initial_limits(
                ps.wt_initial_max_streams_bidi,
                ps.wt_initial_max_streams_uni,
                ps.wt_initial_max_data,
            );
            let more_sessions = match ps.wt_max_sessions {
                Some(v) => v > 1,
                None => false,
            };
            let fc_enabled = ps.wt_initial_max_streams_bidi > 0 || ps.wt_initial_max_streams_uni > 0
                || ps.wt_initial_max_data > 0 || more_sessions;
            session.flow_control.set_enabled(fc_enabled);
        }
        self.restore_session(i, session);
        proof {
            lemma_first_pos(old(self)@.sessions, spec_session_is(session_id));
            assert(self@.sessions =~= spec_accept(old(self)@, session_id, spec_strs_view(extra_headers@)).1.sessions);
        }
        self.h3.send_connect_response(session_id, 200, extra_headers)
    }

    /// Rejects session `session_id` with status `status`; returns the bytes
    /// of the response.
    pub fn reject_session(&mut self, session_id: u64, status: u16) -> (r: Result<Vec<u8>>)
        requires
            old(self).wf(),
        ensures
            final(self).wf(),
            match spec_session(old(self)@, session_id) {
                None => r matches Err(e) && e.kind() == ErrorKind::SessionNotFound(session_id) && final(self)@ == old(self)@,
                Some(s) => final(self)@ == spec_with_session(old(self)@, session_id,
                        |x: SessionView| SessionView { state: SessionState::Closed, ..x })
                    && match spec_headers_frame(spec_response_headers(status, Seq::empty())) {
                        Ok(b) => r matches Ok(d) && d@ == b,
                        Err(k) => r matches Err(e) && e.kind() == k,
                    },
            },
    {
        let i = match self.session_index(session_id) {
            Some(i) => i,
            None => {
                return Err(Error::SessionNotFound(session_id));
            },
        };
        let mut session = self.take_session(i);
        session.state = SessionState::Closed;
        self.restore_session(i, session);
        proof {
            lemma_first_pos(old(self)@.sessions, spec_session_is(session_id));
            assert(self@.sessions =~= spec_with_session(old(self)@, session_id,
                |x: SessionView| SessionView { state: SessionState::Closed, ..x }).sessions);
        }
        let no_headers: Vec<(&str, &str)> = Vec::new();
        assert(spec_strs_view(no_headers@) =~= Seq::empty());
        self.h3.send_connect_response(session_id, status, no_headers.as_slice())
    }

    fn open_stream(&mut self, session_id: u64, bidi: bool) -> (r: Result<(u64, Vec<u8>)>)
        requires
            old(self).wf(),
            spec_session(old(self)@, session_id) matches Some(s) ==> s.flow.streams_opened_bidi < u64::MAX
                && s.flow.streams_opened_uni < u64::MAX,
        ensures
            final(self).wf(),
            ({
                let (x, v) = spec_open_stream(old(self)@, session_id, bidi);
                &&& final(self)@ == v
                &&& match x {
                    Ok((id, b)) => r matches Ok((i, d)) && i == id && d@ == b,
                    Err(k) => r matches Err(e) && e.kind() == k,
                }
            }),
    {
        proof {
            lemma_first_pos(old(self)@.sessions, spec_session_is(session_id));
        }
        let i = match self.session_index(session_id) {
            Some(i) => i,
            None => {
                return Err(Error::SessionNotFound(session_id));
            },
        };
        assert(self.sessions@[i as int]@ == self@.sessions[i as int]);
        if !self.sessions[i].is_established() {
            return Err(Error::SessionClosed);
        }
        let can = if bidi { self.sessions[i].flow_control.can_open_bidi() } else { self.sessions[i].flow_control.can_open_uni() };
        if !can {
            return Err(Error::StreamBlocked);
        }
        let mut session = self.take_session(i);
        session.flow_control.on_stream_opened_local(bidi);
        self.restore_session(i, session);
        proof {
            let (_, v) = spec_open_stream(old(self)@, session_id, bidi);
            assert(self@.sessions =~= v.sessions);
        }
        let t = if bidi { StreamType::BiDirectional } else { StreamType::UniDirectional };
        let header = stream::encode_stream_header(session_id, t)?;
        Ok((session_id, header))
    }

    /// Opens a unidirectional data stream on a session; returns the session
    /// ID and the stream header to write first.
    pub fn open_uni_stream(&mut self, session_id: u64) -> (r: Result<(u64, Vec<u8>)>)
        requires
            old(self).wf(),
            spec_session(old(self)@, session_id) matches Some(s) ==> s.flow.streams_opened_bidi < u64::MAX
                && s.flow.streams_opened_uni < u64::MAX,
        ensures
            final(self).wf(),
            ({
                let (x, v) = spec_open_stream(old(self)@, session_id, false);
                &&& final(self)@ == v
                &&& match x {
                    Ok((id, b)) => r matches Ok((i, d)) && i == id && d@ == b,
                    Err(k) => r matches Err(e) && e.kind() == k,
                }
            }),
    {
        self.open_stream(session_id, false)
    }

    /// Opens a bidirectional data stream on a session; returns the session
    /// ID and the stream header to write first.
    pub fn open_bidi_stream(&mut self, session_id: u64) -> (r: Result<(u64, Vec<u8>)>)
        requires
            old(self).wf(),
            spec_session(old(self)@, session_id) matches Some(s) ==> s.flow.streams_opened_bidi < u64::MAX
                && s.flow.streams_opened_uni < u64::MAX,
        ensures
            final(self).wf(),
            ({
                let (x, v) = spec_open_stream(old(self)@, session_id, true);
                &&& final(self)@ == v
                &&& match x {
                    Ok((id, b)) => r matches Ok((i, d)) && i == id && d@ == b,
                    Err(k) => r matches Err(e) && e.kind() == k,
                }
            }),
    {
        self.open_stream(session_id, true)
    }

    /// Registers a data stream opened at the QUIC level under
    /// `quic_stream_id` for session `session_id`.
    pub fn register_outgoing_stream(&mut self, quic_stream_id: u64, session_id: u64, stream_type: StreamType)
        requires
            old(self).wf(),
        ensures
            final(self).wf(),
            ({
                let v1 = ConnView { wt_map: spec_put(old(self)@.wt_map, quic_stream_id, session_id), ..old(self)@ };
                final(self)@ == spec_with_session(v1, session_id, |x: SessionView| SessionView {
                    streams: spec_register_stream(x.streams, spec_outgoing_stream(quic_stream_id, session_id, stream_type)),
                    ..x
                })
            }),
    {
        let wt_stream = WtStream::new_outgoing(quic_stream_id, session_id, stream_type);
        pair_put(&mut self.wt_stream_to_session, quic_stream_id, session_id);
        let ghost v1 = self@;
        proof {
            lemma_first_pos(v1.sessions, spec_session_is(session_id));
        }
        match self.session_index(session_id) {
            Some(i) => {
                let mut session = self.take_session(i);
                session.register_stream(wt_stream);
                self.restore_session(i, session);
                assert(self@.sessions =~= spec_with_session(v1, session_id, |x: SessionView| SessionView {
                    streams: spec_register_stream(x.streams, spec_outgoing_stream(quic_stream_id, session_id, stream_type)),
                    ..x
                }).sessions);
            },
            None => {},
        }
    }

    /// Whether `len` more bytes may be sent on data stream `quic_stream_id`;
    /// `StreamBlocked` when its session's data limit forbids it.
    pub fn check_send(&self, quic_stream_id: u64, len: u64) -> (r: Result<()>)
        requires
            spec_stream_session(self@, quic_stream_id) matches Some(s) ==> (s.flow.enabled ==> s.flow.data_sent + len <= u64::MAX),
        ensures
            match spec_stream_session(self@, quic_stream_id) {
                Some(s) => if spec_can_send(s.flow, len) {
                    r is Ok
                } else {
                    r matches Err(e) && e.kind() == ErrorKind::StreamBlocked
                },
                None => r is Ok,
            },
    {
        match pair_get(&self.wt_stream_to_session, quic_stream_id) {
            Some(session_id) => {
                match self.session_index(session_id) {
                    Some(i) => {
                        assert(self.sessions@[i as int]@ == self@.sessions[i as int]);
                        if !self.sessions[i].flow_control.can_send(len) {
                            return Err(Error::StreamBlocked);
                        }
                    },
                    None => {},
                }
            },
            None => {},
        }
        Ok(())
    }

    /// Counts `len` bytes sent on data stream `quic_stream_id`.
    pub fn on_data_sent(&mut self, quic_stream_id: u64, len: u64)
        requires
            old(self).wf(),
            spec_stream_session(old(self)@, quic_stream_id) matches Some(s) ==> s.flow.data_sent + len <= u64::MAX,
        ensures
            final(self).wf(),
            match spec_lookup(old(self)@.wt_map, quic_stream_id) {
                Some(sid) => final(self)@ == spec_with_session(old(self)@, sid, |x: SessionView| SessionView {
                    flow: FlowView { data_sent: (x.flow.data_sent + len) as u64, ..x.flow },
                    ..x
                }),
                None => final(self)@ == old(self)@,
            },
    {
        match pair_get(&self.wt_stream_to_session, quic_stream_id) {
            Some(session_id) => {
                proof {
                    lemma_first_pos(old(self)@.sessions, spec_session_is(session_id));
                }
                match self.session_index(session_id) {
                    Some(i) => {
                        let mut session = self.take_session(i);
                        session.flow_control.on_data_sent(len);
                        self.restore_session(i, session);
                        assert(self@.sessions =~= spec_with_session(old(self)@, session_id, |x: SessionView| SessionView {
                            flow: FlowView { data_sent: (x.flow.data_sent + len) as u64, ..x.flow },
                            ..x
                        }).sessions);
                    },
                    None => {},
                }
            },
            None => {},
        }
    }

    /// Bytes of a datagram of session `session_id`.
    pub fn encode_datagram(&self, session_id: u64, payload: &[u8]) -> (r: Result<Vec<u8>>)
        ensures
            match spec_session(self@, session_id) {
                None => r matches Err(e) && e.kind() == ErrorKind::SessionNotFound(session_id),
                Some(s) => if s.state == SessionState::Closed {
                    r matches Err(e) && e.kind() == ErrorKind::SessionClosed
                } else {
                    r matches Ok(b) && b@ == spec_datagram(session_id, payload@)
                },
            },
    {
        let i = match self.session_index(session_id) {
            Some(i) => i,
            None => {
                return Err(Error::SessionNotFound(session_id));
            },
        };
        assert(self.sessions@[i as int]@ == self@.sessions[i as int]);
        if self.sessions[i].is_closed() {
            return Err(Error::SessionClosed);
        }
        let quarter_stream_id = session_id / 4;
        let mut buf = varint::encode_vec(quarter_stream_id)?;
        let mut rest = vstd::slice::slice_to_vec(payload);
        buf.append(&mut rest);
        Ok(buf)
    }

    /// Reads a received datagram: its session ID and payload.
    pub fn decode_datagram(&self, data: &[u8]) -> (r: Result<(u64, Vec<u8>)>)
        ensures
            match spec_decode_varint(data@) {
                None => r matches Err(e) && e.kind() == ErrorKind::BufferTooShort,
                Some((q, n)) => match spec_session(self@, (q * 4) as u64) {
                    None => r matches Err(e) && e.kind() == ErrorKind::SessionNotFound((q * 4) as u64),
                    Some(_) => r matches Ok((id, p)) && id == q * 4 && p@ == data@.skip(n as int),
                },
            },
    {
        let (quarter_stream_id, n) = varint::decode(data)?;
        proof {
            lemma_decode_varint_bound(data@);
        }
        let session_id = quarter_stream_id * 4;
        match self.session_index(session_id) {
            Some(_) => {},
            None => {
                return Err(Error::SessionNotFound(session_id));
            },
        }
        let payload = vstd::slice::slice_to_vec(&data[n..data.len()]);
        assert(payload@ =~= data@.skip(n as int));
        Ok((session_id, payload))
    }

    /// Closes session `session_id`: it becomes closed; returns the
    /// CLOSE_SESSION capsule to send, as H3 DATA, and the data streams to
    /// reset.
    pub fn close_session(&mut self, session_id: u64, error_code: u32, reason: &str) -> (r: Result<CloseSessionResult>)
        requires
            old(self).wf(),
        ensures
            final(self).wf(),
            match spec_session(old(self)@, session_id) {
                None => r matches Err(e) && e.kind() == ErrorKind::SessionNotFound(session_id) && final(self)@ == old(self)@,
                Some(s) => final(self)@ == spec_with_session(old(self)@, session_id,
                        |x: SessionView| SessionView { state: SessionState::Closed, ..x })
                    && match spec_capsule_data(CapsuleView::CloseSession { error_code, error_message: reason@ }) {
                        Ok(b) => r matches Ok(c) && c.capsule_data@ == b && c.streams_to_reset@ == spec_stream_ids(s.streams)
                            && c.reset_error_code == WT_SESSION_GONE,
                        Err(k) => r matches Err(e) && e.kind() == k,
                    },
            },
    {
        let i = match self.session_index(session_id) {
            Some(i) => i,
            None => {
                return Err(Error::SessionNotFound(session_id));
            },
        };
        let mut session = self.take_session(i);
        session.state = SessionState::Closed;
        let streams_to_reset = session.stream_ids();
        self.restore_session(i, session);
        proof {
            lemma_first_pos(old(self)@.sessions, spec_session_is(session_id));
            assert(self@.sessions =~= spec_with_session(old(self)@, session_id,
                |x: SessionView| SessionView { state: SessionState::Closed, ..x }).sessions);
        }
        let capsule = Capsule::CloseSession { error_code, error_message: reason.to_owned() };
        let mut capsule_bytes: Vec<u8> = Vec::new();
        capsule.encode(&mut capsule_bytes)?;
        assert(capsule_bytes@ =~= spec_encode_capsule(capsule@)->Ok_0);
        let capsule_data = self.h3.encode_body_as_h3_data(capsule_bytes.as_slice())?;
        Ok(CloseSessionResult { capsule_data, streams_to_reset, reset_error_code: WT_SESSION_GONE })
    }

    /// Starts draining session `session_id`; returns the
    /// DRAIN_SESSION capsule to send, as H3 DATA.
    pub fn drain_session(&mut self, session_id: u64) -> (r: Result<Vec<u8>>)
        requires
            old(self).wf(),
        ensures
            final(self).wf(),
            match spec_session(old(self)@, session_id) {
                None => r matches Err(e) && e.kind() == ErrorKind::SessionNotFound(session_id) && final(self)@ == old(self)@,
                Some(s) => final(self)@ == spec_with_session(old(self)@, session_id,
                        |x: SessionView| SessionView { state: SessionState::Draining, ..x })
                    && match spec_capsule_data(CapsuleView::DrainSession) {
                        Ok(b) => r matches Ok(d) && d@ == b,
                        Err(k) => r matches Err(e) && e.kind() == k,
                    },
            },
    {
        let i = match self.session_index(session_id) {
            Some(i) => i,
            None => {
                return Err(Error::SessionNotFound(session_id));
            },
        };
        let mut session = self.take_session(i);
        session.state = SessionState::Draining;
        self.restore_session(i, session);
        proof {
            lemma_first_pos(old(self)@.sessions, spec_session_is(session_id));
            assert(self@.sessions =~= spec_with_session(old(self)@, session_id,
                |x: SessionView| SessionView { state: SessionState::Draining, ..x }).sessions);
        }
        let capsule = Capsule::DrainSession;
        let mut capsule_bytes: Vec<u8> = Vec::new();
        capsule.encode(&mut capsule_bytes)?;
        assert(capsule_bytes@ =~= spec_encode_capsule(capsule@)->Ok_0);
        self.h3.encode_body_as_h3_data(capsule_bytes.as_slice())
    }

    /// The QUIC stream IDs of the data streams of session `session_id`.
    pub fn session_stream_ids(&self, session_id: u64) -> (r: Vec<u64>)
        ensures
            r@ == match spec_session(self@, session_id) {
                Some(s) => spec_stream_ids(s.streams),
                None => Seq::empty(),
            },
    {
        match self.session_index(session_id) {
            Some(i) => {
                assert(self.sessions@[i as int]@ == self@.sessions[i as int]);
                self.sessions[i].stream_ids()
            },
            None => Vec::new(),
        }
    }

    /// The next pending event, oldest first.
    pub fn poll_event(&mut self) -> (r: Option<Event>)
        requires
            old(self).wf(),
        ensures
            final(self).wf(),
            old(self)@.events.len() == 0 ==> (r is None && final(self)@ == old(self)@),
            old(self)@.events.len() > 0 ==> (r matches Some(e) && e@ == old(self)@.events[0]
                && final(self)@ == (ConnView { events: old(self)@.events.skip(1), ..old(self)@ })),
    {
        if self.pending_events.len() == 0 {
            return None;
        }
        let e = self.pending_events.remove(0);
        assert(self@.events =~= old(self)@.events.skip(1));
        Some(e)
    }

    pub fn session_state(&self, session_id: u64) -> (r: Option<SessionState>)
        ensures
            r == match spec_session(self@, session_id) {
                Some(s) => Some(s.state),
                None => None::<SessionState>,
            },
    {
        match self.session_index(session_id) {
            Some(i) => {
                assert(self.sessions@[i as int]@ == self@.sessions[i as int]);
                Some(self.sessions[i].state)
            },
            None => None,
        }
    }

    pub fn has_peer_settings(&self) -> (r: bool)
        ensures
            r == self@.h3.settings_received,
    {
        self.h3.has_settings()
    }

    pub fn peer_supports_webtransport(&self) -> (r: bool)
        ensures
            r == spec_supports_webtransport(self@.h3.peer_settings),
    {
        self.h3.peer_settings().supports_webtransport()
    }

    /// What resetting data stream `quic_stream_id` takes: the HTTP/3
    /// code of the application error, and the stream header's length as
    /// the reliable size.
    pub fn prepare_reset_stream(&self, quic_stream_id: u64, app_error_code: u32) -> (r: Result<ResetInfo>)
        ensures
            match spec_lookup(self@.wt_map, quic_stream_id) {
                None => r matches Err(e) && e.kind() == ErrorKind::StreamNotFound(quic_stream_id),
                Some(sid) => match spec_session(self@, sid) {
                    None => r matches Err(e) && e.kind() == ErrorKind::SessionNotFound(sid),
                    Some(s) => r matches Ok(info) && info.h3_error_code == spec_wt_to_h3(app_error_code)
                        && info.min_reliable_size == ({
                            let j = spec_first_pos(s.streams, spec_stream_is(quic_stream_id));
                            if j < 0 { 0 } else { s.streams[j].progress.header_len }
                        }),
                },
            },
    {
        let session_id = match pair_get(&self.wt_stream_to_session, quic_stream_id) {
            Some(s) => s,
            None => {
                return Err(Error::StreamNotFound(quic_stream_id));
            },
        };
        let i = match self.session_index(session_id) {
            Some(i) => i,
            None => {
                return Err(Error::SessionNotFound(session_id));
            },
        };
        let session = &self.sessions[i];
        assert(session@ == self@.sessions[i as int]);
        let ghost sv = session@;
        proof {
            lemma_first_pos(sv.streams, spec_stream_is(quic_stream_id));
        }
        let mut min_reliable_size: u64 = 0;
        let mut j: usize = 0;
        let mut found = false;
        while !found && j < session.streams.len()
            invariant
                j <= session.streams@.len(),
                sv == session@,
                forall|k: int| 0 <= k < j ==> !spec_stream_is(quic_stream_id)(#[trigger] sv.streams[k]),
                found ==> j < sv.streams.len() && spec_stream_is(quic_stream_id)(sv.streams[j as int])
                    && min_reliable_size == sv.streams[j as int].progress.header_len,
                !found ==> min_reliable_size == 0,
            decreases session.streams.len() - j + (if found { 0int } else { 1int }),
        {
            assert(sv.streams[j as int] == session.streams@[j as int]@);
            if session.streams[j].quic_stream_id == quic_stream_id {
                min_reliable_size = session.streams[j].header_len;
                found = true;
            } else {
                j = j + 1;
            }
        }
        proof {
            if found {
                lemma_first_pos_at(sv.streams, spec_stream_is(quic_stream_id), j as int);
            }
        }
        Ok(ResetInfo {
            h3_error_code: error::webtransport_to_http3_error(app_error_code),
            min_reliable_size,
        })
    }

    /// A PRIORITY_UPDATE frame for session `session_id`: the session
    /// ID, then the priority field value.
    pub fn encode_priority_update(&self, session_id: u64, priority_field_value: &str) -> (r: Result<Vec<u8>>)
        ensures
            match spec_session(self@, session_id) {
                None => r matches Err(e) && e.kind() == ErrorKind::SessionNotFound(session_id),
                Some(_) => if session_id > spec_max_varint() {
                    r matches Err(e) && e.kind() == ErrorKind::VarintOverflow
                } else {
                    match spec_encode_frame(H3FrameView {
                        frame_type: H3_FRAME_PRIORITY_UPDATE,
                        payload: spec_varint_bytes(session_id) + priority_field_value.spec_bytes(),
                    }) {
                        Ok(b) => r matches Ok(d) && d@ == b,
                        Err(k) => r matches Err(e) && e.kind() == k,
                    }
                },
            },
    {
        match self.session_index(session_id) {
            Some(_) => {},
            None => {
                return Err(Error::SessionNotFound(session_id));
            },
        }
        let mut payload = varint::encode_vec(session_id)?;
        let mut value = vstd::slice::slice_to_vec(priority_field_value.as_bytes());
        payload.append(&mut value);
        let frame = H3Frame { frame_type: H3_FRAME_PRIORITY_UPDATE, payload };
        let mut buf: Vec<u8> = Vec::new();
        match frame.encode(&mut buf) {
            Ok(_) => {},
            Err(e) => {
                return Err(e);
            },
        }
        assert(buf@ =~= Seq::<u8>::empty() + buf@);
        Ok(buf)
    }

    /// Remembers the settings of an earlier connection, which the peer's
    /// new SETTINGS may not reduce.
    pub fn set_0rtt_settings(&mut self, settings: PeerSettings)
        requires
            old(self).wf(),
        ensures
            final(self).wf(),
            final(self)@ == (ConnView { previous_settings: Some(settings@), ..old(self)@ }),
    {
        self.previous_settings = Some(settings);
    }

    /// The protocols offered when session `session_id` was opened.
    pub fn offered_protocols(&self, session_id: u64) -> (r: Option<Vec<String>>)
        ensures
            match spec_session(self@, session_id) {
                Some(s) => r matches Some(v) && spec_strings_view(v@) == s.offered_protocols,
                None => r is None,
            },
    {
        match self.session_index(session_id) {
            Some(i) => {
                assert(self.sessions@[i as int]@ == self@.sessions[i as int]);
                let s = &self.sessions[i];
                let mut out: Vec<String> = Vec::new();
                let mut j: usize = 0;
                while j < s.offered_protocols.len()
                    invariant
                        j <= s.offered_protocols@.len(),
                        spec_strings_view(out@) == spec_strings_view(s.offered_protocols@.take(j as int)),
                    decreases s.offered_protocols.len() - j,
                {
                    let ghost prev = out@;
                    let c = s.offered_protocols[j].clone();
                    let ghost cv = c@;
                    out.push(c);
                    assert(spec_strings_view(out@) =~= spec_strings_view(prev).push(cv));
                    assert(s.offered_protocols@.take(j + 1) =~= s.offered_protocols@.take(j as int).push(s.offered_protocols@[j as int]));
                    assert(spec_strings_view(s.offered_protocols@.take(j + 1)) =~= spec_strings_view(s.offered_protocols@.take(j as int)).push(s.offered_protocols@[j as int]@));
                    j = j + 1;
                }
                assert(s.offered_protocols@.take(j as int) =~= s.offered_protocols@);
                Some(out)
            },
            None => None,
        }
    }

    /// The protocol negotiated for session `session_id`, if any.
    pub fn negotiated_protocol(&self, session_id: u64) -> (r: Option<String>)
        ensures
            spec_opt_string(r) == match spec_session(self@, session_id) {
                Some(s) => s.negotiated_protocol,
                None => None,
            },
    {
        match self.session_index(session_id) {
            Some(i) => {
                assert(self.sessions@[i as int]@ == self@.sessions[i as int]);
                match &self.sessions[i].negotiated_protocol {
                    Some(p) => Some(p.clone()),
                    None => None,
                }
            },
            None => None,
        }
    }

    /// The TLS exporter context of a session.
    pub fn build_exporter_context(session_id: u64, label: &[u8], context: &[u8]) -> (r: Vec<u8>)
        ensures
            r@ == spec_exporter_context(session_id, label@, context@),
    {
        let mut buf: Vec<u8> = Vec::new();
        buf.push((session_id >> 56u64) as u8);
        buf.push((session_id >> 48u64) as u8);
        buf.push((session_id >> 40u64) as u8);
        buf.push((session_id >> 32u64) as u8);
        buf.push((session_id >> 24u64) as u8);
        buf.push((session_id >> 16u64) as u8);
        buf.push((session_id >> 8u64) as u8);
        buf.push(session_id as u8);
        buf.push(label.len() as u8);
        let mut l = vstd::slice::slice_to_vec(label);
        buf.append(&mut l);
        buf.push(context.len() as u8);
        let mut c = vstd::slice::slice_to_vec(context);
        buf.append(&mut c);
        assert(buf@ =~= spec_exporter_context(session_id, label@, context@));
        buf
    }

    fn encode_limit_capsule(&self, session_id: u64, kind: u8) -> (r: Result<Vec<u8>>)
        requires
            kind < 3,
        ensures
            match spec_session(self@, session_id) {
                None => r matches Err(e) && e.kind() == ErrorKind::SessionNotFound(session_id),
                Some(s) => match spec_capsule_data(
                    if kind == 0 {
                        CapsuleView::StreamsBlockedBidi(s.flow.peer_max_streams_bidi)
                    } else if kind == 1 {
                        CapsuleView::StreamsBlockedUni(s.flow.peer_max_streams_uni)
                    } else {
                        CapsuleView::DataBlocked(s.flow.peer_max_data)
                    }
                ) {
                    Ok(b) => r matches Ok(d) && d@ == b,
                    Err(k) => r matches Err(e) && e.kind() == k,
                },
            },
    {
        let i = match self.session_index(session_id) {
            Some(i) => i,
            None => {
                return Err(Error::SessionNotFound(session_id));
            },
        };
        assert(self.sessions@[i as int]@ == self@.sessions[i as int]);
        let fc = &self.sessions[i].flow_control;
        let capsule = if kind == 0 {
            Capsule::StreamsBlockedBidi(fc.peer_max_streams_bidi())
        } else if kind == 1 {
            Capsule::StreamsBlockedUni(fc.peer_max_streams_uni())
        } else {
            Capsule::DataBlocked(fc.peer_max_data())
        };
        let mut capsule_bytes: Vec<u8> = Vec::new();
        capsule.encode(&mut capsule_bytes)?;
        assert(capsule_bytes@ =~= spec_encode_capsule(capsule@)->Ok_0);
        self.h3.encode_body_as_h3_data(capsule_bytes.as_slice())
    }

    /// A WT_STREAMS_BLOCKED_BIDI capsule at the peer's limit, as H3 DATA.
    pub fn encode_streams_blocked_bidi(&self, session_id: u64) -> (r: Result<Vec<u8>>)
        ensures
            match spec_session(self@, session_id) {
                None => r matches Err(e) && e.kind() == ErrorKind::SessionNotFound(session_id),
                Some(s) => match spec_capsule_data(CapsuleView::StreamsBlockedBidi(s.flow.peer_max_streams_bidi)) {
                    Ok(b) => r matches Ok(d) && d@ == b,
                    Err(k) => r matches Err(e) && e.kind() == k,
                },
            },
    {
        self.encode_limit_capsule(session_id, 0)
    }

    /// A WT_STREAMS_BLOCKED_UNI capsule at the peer's limit, as H3 DATA.
    pub fn encode_streams_blocked_uni(&self, session_id: u64) -> (r: Result<Vec<u8>>)
        ensures
            match spec_session(self@, session_id) {
                None => r matches Err(e) && e.kind() == ErrorKind::SessionNotFound(session_id),
                Some(s) => match spec_capsule_data(CapsuleView::StreamsBlockedUni(s.flow.peer_max_streams_uni)) {
                    Ok(b) => r matches Ok(d) && d@ == b,
                    Err(k) => r matches Err(e) && e.kind() == k,
                },
            },
    {
        self.encode_limit_capsule(session_id, 1)
    }

    /// A WT_DATA_BLOCKED capsule at the peer's limit, as H3 DATA.
    pub fn encode_data_blocked(&self, session_id: u64) -> (r: Result<Vec<u8>>)
        ensures
            match spec_session(self@, session_id) {
                None => r matches Err(e) && e.kind() == ErrorKind::SessionNotFound(session_id),
                Some(s) => match spec_capsule_data(CapsuleView::DataBlocked(s.flow.peer_max_data)) {
                    Ok(b) => r matches Ok(d) && d@ == b,
                    Err(k) => r matches Err(e) && e.kind() == k,
                },
            },
    {
        self.encode_limit_capsule(session_id, 2)
    }

    /// Closes session `session_id` once, reporting why.
    fn handle_session_close(&mut self, session_id: u64, error_code: u32, reason: String)
        ensures
            final(self)@ == spec_handle_close(old(self)@, session_id, error_code, reason@),
            final(self).pending_wt_streams == old(self).pending_wt_streams,
    {
        proof {
            lemma_first_pos(old(self)@.sessions, spec_session_is(session_id));
        }
        match self.session_index(session_id) {
            Some(i) => {
                assert(self.sessions@[i as int]@ == self@.sessions[i as int]);
                if self.sessions[i].state == SessionState::Closed {
                    return;
                }
                let mut session = self.take_session(i);
                session.state = SessionState::Closed;
                self.restore_session(i, session);
                assert(self@.sessions =~= spec_with_session(old(self)@, session_id,
                    |x: SessionView| SessionView { state: SessionState::Closed, ..x }).sessions);
            },
            None => {},
        }
        self.emit(Event::SessionClosed { session_id, error_code, reason });
    }

    fn process_wt_stream_data(&mut self, quic_stream_id: u64, session_id: u64, data: &[u8], fin: bool) -> (r: Result<()>)
        requires
            spec_session(old(self)@, session_id) matches Some(s) ==> s.flow.data_received + data@.len() <= u64::MAX,
        ensures
            r is Ok,
            final(self)@ == spec_process_wt_data(old(self)@, quic_stream_id, session_id, data@, fin),
            final(self).pending_wt_streams == old(self).pending_wt_streams,
    {
        proof {
            lemma_first_pos(old(self)@.sessions, spec_session_is(session_id));
        }
        match self.session_index(session_id) {
            Some(i) => {
                if data.len() > 0 {
                    let mut session = self.take_session(i);
                    session.flow_control.on_data_received(data.len() as u64);
                    self.restore_session(i, session);
                    assert(self@.sessions =~= spec_with_session(old(self)@, session_id, |x: SessionView| SessionView {
                        flow: FlowView { data_received: (x.flow.data_received + data@.len()) as u64, ..x.flow },
                        ..x
                    }).sessions);
                    self.emit(Event::StreamData(quic_stream_id));
                }
                if fin {
                    self.emit(Event::StreamFinished(quic_stream_id));
                }
            },
            None => {},
        }
        Ok(())
    }

    fn associate_incoming_stream(&mut self, wt_stream: WtStream) -> (r: Result<()>)
        requires
            wt_stream.session_id == wt_stream.progress().session_id,
            spec_session(old(self)@, wt_stream.session_id) matches Some(s) ==> s.flow.peer_streams_opened_bidi < u64::MAX
                && s.flow.peer_streams_opened_uni < u64::MAX,
        ensures
            ({
                let (x, v) = spec_associate(old(self)@, wt_stream@);
                &&& final(self)@ == v
                &&& match x {
                    Ok(_) => r is Ok,
                    Err(k) => r matches Err(e) && e.kind() == k,
                }
            }),
            final(self).pending_wt_streams == old(self).pending_wt_streams,
    {
        let session_id = wt_stream.session_id;
        if session_id % 4 != 0 {
            return Err(Error::InvalidSessionId(session_id));
        }
        let quic_stream_id = wt_stream.quic_stream_id;
        let is_bidi = wt_stream.stream_type == StreamType::BiDirectional;
        let ghost w = wt_stream@;
        pair_put(&mut self.wt_stream_to_session, quic_stream_id, session_id);
        let ghost v1 = self@;
        proof {
            lemma_first_pos(v1.sessions, spec_session_is(session_id));
        }
        match self.session_index(session_id) {
            Some(i) => {
                let mut session = self.take_session(i);
                session.flow_control.on_stream_opened_remote(is_bidi);
                session.register_stream(wt_stream);
                self.restore_session(i, session);
                assert(self@.sessions =~= spec_with_session(v1, session_id, |x: SessionView| SessionView {
                    flow: if is_bidi {
                        FlowView { peer_streams_opened_bidi: (x.flow.peer_streams_opened_bidi + 1) as u64, ..x.flow }
                    } else {
                        FlowView { peer_streams_opened_uni: (x.flow.peer_streams_opened_uni + 1) as u64, ..x.flow }
                    },
                    streams: spec_register_stream(x.streams, w),
                    ..x
                }).sessions);
                let event = if is_bidi {
                    Event::BidiStreamReceived { session_id, stream_id: quic_stream_id }
                } else {
                    Event::UniStreamReceived { session_id, stream_id: quic_stream_id }
                };
                self.emit(event);
            },
            None => {},
        }
        Ok(())
    }

    fn create_session_from_connect(&mut self, stream_id: u64, headers: Vec<(String, String)>)
        ensures
            final(self)@ == spec_create_session(old(self)@, stream_id, spec_pairs_view(headers@)),
            final(self).pending_wt_streams == old(self).pending_wt_streams,
    {
        let ghost h = spec_pairs_view(headers@);
        let authority = match header_get(&headers, ":authority") {
            Some(a) => a,
            None => String::new(),
        };
        let path = match header_get(&headers, ":path") {
            Some(p) => p,
            None => String::new(),
        };
        let origin = header_get(&headers, "origin");
        let mut session = Session::new(
            stream_id,
            self.config.initial_max_streams_bidi,
            self.config.initial_max_streams_uni,
            self.config.initial_max_data,
        );
        session.authority = authority.clone();
        session.path = path.clone();
        session.origin = match &origin {
            Some(o) => Some(o.clone()),
            None => None,
        };
        assert(session@ == (SessionView {
            authority: spec_header_or_empty(h, ":authority"@),
            path: spec_header_or_empty(h, ":path"@),
            origin: spec_header_get(h, "origin"@),
            ..spec_new_session(self.config, stream_id)
        }));
        self.put_session(session);
        pair_put(&mut self.connect_stream_to_session, stream_id, stream_id);
        self.emit(Event::SessionRequest { session_id: stream_id, authority, path, origin, headers });
    }

    fn apply_capsule_limit(&mut self, session_id: u64, kind: u8, value: u64)
        requires
            kind < 3,
        ensures
            final(self)@ == spec_process_capsule(old(self)@, session_id,
                if kind == 0 { CapsuleView::MaxStreamsBidi(value) } else if kind == 1 { CapsuleView::MaxStreamsUni(value) } else { CapsuleView::MaxData(value) }),
            final(self).pending_wt_streams == old(self).pending_wt_streams,
    {
        proof {
            lemma_first_pos(old(self)@.sessions, spec_session_is(session_id));
        }
        match self.session_index(session_id) {
            Some(i) => {
                let mut session = self.take_session(i);
                let res = if kind == 0 {
                    session.flow_control.apply_peer_max_streams_bidi(value)
                } else if kind == 1 {
                    session.flow_control.apply_peer_max_streams_uni(value)
                } else {
                    session.flow_control.apply_peer_max_data(value)
                };
                self.restore_session(i, session);
                if res.is_err() {
                    assert(self@.sessions =~= old(self)@.sessions);
                    self.handle_session_close(session_id, 0, "flow control error".to_owned());
                } else if kind == 0 {
                    assert(self@.sessions =~= spec_with_session(old(self)@, session_id,
                        |x: SessionView| SessionView { flow: FlowView { peer_max_streams_bidi: value, ..x.flow }, ..x }).sessions);
                } else if kind == 1 {
                    assert(self@.sessions =~= spec_with_session(old(self)@, session_id,
                        |x: SessionView| SessionView { flow: FlowView { peer_max_streams_uni: value, ..x.flow }, ..x }).sessions);
                } else {
                    assert(self@.sessions =~= spec_with_session(old(self)@, session_id,
                        |x: SessionView| SessionView { flow: FlowView { peer_max_data: value, ..x.flow }, ..x }).sessions);
                }
            },
            None => {},
        }
    }

    fn process_capsule(&mut self, session_id: u64, capsule: Capsule)
        ensures
            final(self)@ == spec_process_capsule(old(self)@, session_id, capsule@),
            final(self).pending_wt_streams == old(self).pending_wt_streams,
    {
        match capsule {
            Capsule::CloseSession { error_code, error_message } => {
                self.handle_session_close(session_id, error_code, error_message);
            },
            Capsule::DrainSession => {
                proof {
                    lemma_first_pos(old(self)@.sessions, spec_session_is(session_id));
                }
                match self.session_index(session_id) {
                    Some(i) => {
                        let mut session = self.take_session(i);
                        session.state = SessionState::Draining;
                        self.restore_session(i, session);
                        assert(self@.sessions =~= spec_with_session(old(self)@, session_id,
                            |x: SessionView| SessionView { state: SessionState::Draining, ..x }).sessions);
                    },
                    None => {},
                }
                self.emit(Event::SessionDraining(session_id));
            },
            Capsule::MaxStreamsBidi(v) => {
                self.apply_capsule_limit(session_id, 0, v);
            },
            Capsule::MaxStreamsUni(v) => {
                self.apply_capsule_limit(session_id, 1, v);
            },
            Capsule::MaxData(v) => {
                self.apply_capsule_limit(session_id, 2, v);
            },
            _ => {},
        }
    }

    fn process_connect_stream_data(&mut self, stream_id: u64, data: &[u8]) -> (r: Result<()>)
        ensures
            ({
                let (x, v) = spec_process_connect_data(old(self)@, stream_id, data@);
                &&& final(self)@ == v
                &&& match x {
                    Ok(_) => r is Ok,
                    Err(k) => r matches Err(e) && e.kind() == k,
                }
            }),
            final(self).pending_wt_streams == old(self).pending_wt_streams,
    {
        let session_id = match pair_get(&self.connect_stream_to_session, stream_id) {
            Some(s) => s,
            None => {
                return Ok(());
            },
        };
        proof {
            lemma_first_pos(old(self)@.sessions, spec_session_is(session_id));
        }
        let i = match self.session_index(session_id) {
            Some(i) => i,
            None => {
                return Ok(());
            },
        };
        assert(self.sessions@[i as int]@ == self@.sessions[i as int]);
        if self.sessions[i].is_closed() {
            return Err(Error::ProtocolViolation("data on CONNECT stream after session closed".to_owned()));
        }
        let mut session = self.take_session(i);
        let mut results = session.capsule_parser.feed(data);
        let ghost rem = session.capsule_parser@;
        self.restore_session(i, session);
        let ghost v1 = self@;
        proof {
            assert(v1.sessions =~= spec_with_session(old(self)@, session_id,
                |x: SessionView| SessionView { capsule_buf: rem, ..x }).sessions);
        }
        let ghost target = spec_capsules_effect(v1, session_id, spec_results_view(results@));
        let mut stop = false;
        while !stop && results.len() > 0
            invariant
                !stop ==> target == spec_capsules_effect(self@, session_id, spec_results_view(results@)),
                stop ==> target == self@,
                self.pending_wt_streams == old(self).pending_wt_streams,
            decreases results.len(),
        {
            let ghost rest = spec_results_view(results@);
            let item = results.remove(0);
            assert(spec_results_view(results@) =~= rest.skip(1));
            match item {
                Ok(capsule) => {
                    assert(rest[0] == Ok::<CapsuleView, ErrorKind>(capsule@));
                    self.process_capsule(session_id, capsule);
                },
                Err(e) => {
                    assert(rest[0] == Err::<CapsuleView, ErrorKind>(e.kind()));
                    self.handle_session_close(session_id, 0, "capsule error".to_owned());
                    stop = true;
                },
            }
        }
        assert(!stop ==> spec_results_view(results@) =~= Seq::empty());
        Ok(())
    }

    /// Whether `proto` is among the protocols offered on session `i`.
    fn offered_contains(&self, i: usize, proto: &String) -> (r: bool)
        requires
            i < self@.sessions.len(),
        ensures
            r == self@.sessions[i as int].offered_protocols.contains(proto@),
    {
        assert(self.sessions@[i as int]@ == self@.sessions[i as int]);
        let offered = &self.sessions[i].offered_protocols;
        let ghost ov = spec_strings_view(offered@);
        let mut j: usize = 0;
        while j < offered.len()
            invariant
                j <= offered@.len(),
                ov == spec_strings_view(offered@),
                ov == self@.sessions[i as int].offered_protocols,
                forall|k: int| 0 <= k < j ==> ov[k] != proto@,
            decreases offered.len() - j,
        {
            if str_eq(offered[j].as_str(), proto.as_str()) {
                assert(ov[j as int] == proto@);
                return true;
            }
            j = j + 1;
        }
        false
    }

    fn process_h3_headers(&mut self, stream_id: u64, headers: Vec<(String, String)>)
        ensures
            final(self)@ == spec_process_h3_headers(old(self)@, stream_id, spec_pairs_view(headers@)),
            final(self).pending_wt_streams == old(self).pending_wt_streams,
    {
        let ghost h = spec_pairs_view(headers@);
        if self.is_server {
            let method = match header_get(&headers, ":method") {
                Some(m) => m,
                None => String::new(),
            };
            let protocol = match header_get(&headers, ":protocol") {
                Some(p) => p,
                None => String::new(),
            };
            if str_eq(method.as_str(), "CONNECT") && str_eq(protocol.as_str(), "webtransport") {
                if !self.h3.has_settings() {
                    let ghost d = self.deferred_requests@;
                    self.deferred_requests.push((stream_id, headers));
                    assert(self@.deferred =~= old(self)@.deferred.push((stream_id, h)));
                    return;
                }
                self.create_session_from_connect(stream_id, headers);
            }
        } else {
            let session_id = match pair_get(&self.connect_stream_to_session, stream_id) {
                Some(s) => s,
                None => {
                    return;
                },
            };
            let status: u16 = match header_get(&headers, ":status") {
                Some(s) => match parse_u16(s.as_str()) {
                    Some(n) => n,
                    None => 0,
                },
                None => 0,
            };
            if 200 <= status && status < 300 {
                proof {
                    lemma_first_pos(old(self)@.sessions, spec_session_is(session_id));
                }
                match self.session_index(session_id) {
                    Some(i) => {
                        let wt_protocol = header_get(&headers, "wt-protocol");
                        let chosen = match &wt_protocol {
                            Some(proto) => self.offered_contains(i, proto),
                            None => false,
                        };
                        let received = self.h3.has_settings();
                        let bidi = self.h3.peer_settings().wt_initial_max_streams_bidi;
                        let uni = self.h3.peer_settings().wt_initial_max_streams_uni;
                        let data = self.h3.peer_settings().wt_initial_max_data;
                        let mut session = self.take_session(i);
                        session.state = SessionState::Established;
                        if received {
                            session.flow_control.set_peer_initial_limits(bidi, uni, data);
                        }
                        if chosen {
                            match wt_protocol {
                                Some(proto) => {
                                    session.negotiated_protocol = Some(proto);
                                },
                                None => {},
                            }
                        }
                        self.restore_session(i, session);
                        proof {
                            let ps = old(self)@.h3.peer_settings;
                            let proto = spec_header_get(h, "wt-protocol"@);
                            assert(self@.sessions =~= spec_with_session(old(self)@, session_id, |x: SessionView| SessionView {
                                state: SessionState::Established,
                                flow: if received { spec_peer_limits(x.flow, ps) } else { x.flow },
                                negotiated_protocol: match proto {
                                    Some(p) => if x.offered_protocols.contains(p) { Some(p) } else { x.negotiated_protocol },
                                    None => x.negotiated_protocol,
                                },
                                ..x
                            }).sessions);
                        }
                    },
                    None => {},
                }
                self.emit(Event::SessionEstablished(session_id));
            } else {
                self.handle_session_close(session_id, 0, rejected_reason(status));
            }
        }
    }

    /// Gives every session the peer's initial limits.
    fn apply_peer_limits_to_all(&mut self, ps: &PeerSettings)
        ensures
            final(self)@ == (ConnView { sessions: spec_all_peer_limits(old(self)@.sessions, ps@), ..old(self)@ }),
            final(self).pending_wt_streams == old(self).pending_wt_streams,
    {
        let mut i: usize = 0;
        while i < self.sessions.len()
            invariant
                i <= self@.sessions.len(),
                self@.sessions.len() == old(self)@.sessions.len(),
                forall|j: int| 0 <= j < i ==> self@.sessions[j] == (SessionView {
                    flow: spec_peer_limits(old(self)@.sessions[j].flow, ps@),
                    ..old(self)@.sessions[j]
                }),
                forall|j: int| i <= j < self@.sessions.len() ==> self@.sessions[j] == old(self)@.sessions[j],
                self@ == (ConnView { sessions: self@.sessions, ..old(self)@ }),
                self.pending_wt_streams == old(self).pending_wt_streams,
            decreases self.sessions.len() - i,
        {
            let ghost before = self@.sessions;
            let mut session = self.take_session(i);
            session.flow_control.set_peer_initial_limits(
                ps.wt_initial_max_streams_bidi,
                ps.wt_initial_max_streams_uni,
                ps.wt_initial_max_data,
            );
            let ghost sv = session@;
            self.restore_session(i, session);
            assert(self@.sessions =~= before.remove(i as int).insert(i as int, sv));
            assert(before.remove(i as int).insert(i as int, sv) =~= before.update(i as int, sv));
            i = i + 1;
        }
        assert(self@.sessions =~= spec_all_peer_limits(old(self)@.sessions, ps@));
    }

    fn create_deferred_sessions(&mut self, deferred: Vec<(u64, Vec<(String, String)>)>)
        ensures
            final(self)@ == spec_create_sessions(old(self)@, spec_deferred_view(deferred@)),
            final(self).pending_wt_streams == old(self).pending_wt_streams,
    {
        let mut deferred = deferred;
        let ghost target = spec_create_sessions(old(self)@, spec_deferred_view(deferred@));
        while deferred.len() > 0
            invariant
                target == spec_create_sessions(self@, spec_deferred_view(deferred@)),
                self.pending_wt_streams == old(self).pending_wt_streams,
            decreases deferred.len(),
        {
            let ghost rest = spec_deferred_view(deferred@);
            let (sid, hs) = deferred.remove(0);
            assert(spec_deferred_view(deferred@) =~= rest.skip(1));
            assert(rest[0] == (sid, spec_pairs_view(hs@)));
            self.create_session_from_connect(sid, hs);
        }
        assert(spec_deferred_view(deferred@) =~= Seq::empty());
    }

    fn process_h3_event(&mut self, event: H3Event) -> (r: Result<()>)
        ensures
            ({
                let (x, v) = spec_h3_event_effect(old(self)@, event@);
                &&& final(self)@ == v
                &&& match x {
                    Ok(_) => r is Ok,
                    Err(k) => r matches Err(e) && e.kind() == k,
                }
            }),
            final(self).pending_wt_streams == old(self).pending_wt_streams,
    {
        match event {
            H3Event::SettingsReceived(peer_settings) => {
                let reduced = match &self.previous_settings {
                    Some(prev) => {
                        let fewer_sessions = match (peer_settings.wt_max_sessions, prev.wt_max_sessions) {
                            (Some(n), Some(o)) => n < o,
                            _ => false,
                        };
                        fewer_sessions || peer_settings.wt_initial_max_streams_bidi < prev.wt_initial_max_streams_bidi
                            || peer_settings.wt_initial_max_streams_uni < prev.wt_initial_max_streams_uni
                            || peer_settings.wt_initial_max_data < prev.wt_initial_max_data
                    },
                    None => false,
                };
                if reduced {
                    return Err(Error::H3SettingsError(
                        "0-RTT: new SETTINGS reduce limits below previous session".to_owned(),
                    ));
                }
                let ghost d = self@.deferred;
                self.apply_peer_limits_to_all(&peer_settings);
                let mut deferred: Vec<(u64, Vec<(String, String)>)> = Vec::new();
                std::mem::swap(&mut deferred, &mut self.deferred_requests);
                assert(self@.deferred =~= Seq::empty());
                assert(self@.sessions =~= spec_all_peer_limits(old(self)@.sessions, peer_settings@));
                self.create_deferred_sessions(deferred);
                Ok(())
            },
            H3Event::HeadersReceived { stream_id, headers } => {
                self.process_h3_headers(stream_id, headers);
                Ok(())
            },
            H3Event::DataReceived { stream_id, data } => {
                self.process_connect_stream_data(stream_id, data.as_slice())
            },
            H3Event::GoAway { .. } => {
                self.emit(Event::GoAway);
                Ok(())
            },
            H3Event::StreamFinished(stream_id) => {
                match pair_get(&self.connect_stream_to_session, stream_id) {
                    Some(session_id) => {
                        self.handle_session_close(session_id, 0, String::new());
                    },
                    None => {},
                }
                Ok(())
            },
        }
    }

    fn process_h3_events(&mut self) -> (r: Result<()>)
        ensures
            ({
                let (x, v) = spec_process_h3_events(old(self)@);
                &&& final(self)@ == v
                &&& match x {
                    Ok(_) => r is Ok,
                    Err(k) => r matches Err(e) && e.kind() == k,
                }
            }),
            final(self).pending_wt_streams == old(self).pending_wt_streams,
    {
        let mut events = self.h3.drain_events();
        let ghost target = spec_process_h3_events(old(self)@);
        assert(self@ == (ConnView { h3: H3View { events: Seq::empty(), ..old(self)@.h3 }, ..old(self)@ }));
        let mut failure: Option<Error> = None;
        while failure.is_none() && events.len() > 0
            invariant
                failure is None ==> target == spec_h3_events_effect(self@, spec_h3_events_view(events@)),
                failure matches Some(e) ==> target == (Err::<(), ErrorKind>(e.kind()), self@),
                self.pending_wt_streams == old(self).pending_wt_streams,
            decreases events.len(),
        {
            let ghost rest = spec_h3_events_view(events@);
            let event = events.remove(0);
            assert(spec_h3_events_view(events@) =~= rest.skip(1));
            assert(rest[0] == event@);
            match self.process_h3_event(event) {
                Ok(()) => {},
                Err(e) => {
                    failure = Some(e);
                },
            }
        }
        match failure {
            Some(e) => Err(e),
            None => {
                assert(spec_h3_events_view(events@) =~= Seq::empty());
                Ok(())
            },
        }
    }

    fn pending_index(&self, quic_stream_id: u64) -> (r: Option<usize>)
        ensures
            match r {
                Some(i) => spec_first_pos(self@.pending_wt, spec_stream_is(quic_stream_id)) == i
                    && i < self@.pending_wt.len(),
                None => spec_first_pos(self@.pending_wt, spec_stream_is(quic_stream_id)) < 0,
            },
    {
        proof {
            lemma_first_pos(self@.pending_wt, spec_stream_is(quic_stream_id));
        }
        let mut i: usize = 0;
        while i < self.pending_wt_streams.len()
            invariant
                i <= self@.pending_wt.len(),
                self@.pending_wt.len() == self.pending_wt_streams@.len(),
                forall|j: int| 0 <= j < i ==> !spec_stream_is(quic_stream_id)(#[trigger] self@.pending_wt[j]),
            decreases self.pending_wt_streams.len() - i,
        {
            assert(self@.pending_wt[i as int] == self.pending_wt_streams@[i as int]@);
            if self.pending_wt_streams[i].quic_stream_id == quic_stream_id {
                proof {
                    lemma_first_pos_at(self@.pending_wt, spec_stream_is(quic_stream_id), i as int);
                }
                return Some(i);
            }
            i = i + 1;
        }
        None
    }

    /// Keeps stream `w`, whose header is incomplete, for more bytes.
    fn put_pending(&mut self, w: WtStream)
        requires
            old(self).wf(),
            w.wf(),
            w.header_len <= 16,
        ensures
            final(self).wf(),
            final(self)@ == (ConnView { pending_wt: spec_put_pending(old(self)@.pending_wt, w@), ..old(self)@ }),
    {
        let ghost wv = w@;
        let ghost ws = w;
        match self.pending_index(w.quic_stream_id) {
            Some(i) => {
                self.pending_wt_streams.remove(i);
                self.pending_wt_streams.insert(i, w);
                assert(self.pending_wt_streams@ =~= old(self).pending_wt_streams@.update(i as int, ws));
                assert(self@.pending_wt =~= old(self)@.pending_wt.update(i as int, wv));
            },
            None => {
                self.pending_wt_streams.push(w);
                assert(self@.pending_wt =~= old(self)@.pending_wt.push(wv));
            },
        }
    }

    fn after_header(&mut self, w: WtStream, extra: &[u8], fin: bool) -> (r: Result<()>)
        requires
            old(self).wf(),
            w.wf(),
            w.progress().state != HeaderState::Done ==> w.header_len <= 16,
            spec_counters_room(old(self)@, extra@.len()),
        ensures
            final(self).wf(),
            ({
                let (x, v) = spec_after_header(old(self)@, w@, extra@, fin);
                &&& final(self)@ == v
                &&& match x {
                    Ok(_) => r is Ok,
                    Err(k) => r matches Err(e) && e.kind() == k,
                }
            }),
    {
        if w.is_header_complete() {
            let session_id = w.session_id;
            let quic_stream_id = w.quic_stream_id;
            let ghost wv = w@;
            proof {
                lemma_first_pos(old(self)@.sessions, spec_session_is(session_id));
            }
            self.associate_incoming_stream(w)?;
            proof {
                lemma_first_pos(self@.sessions, spec_session_is(session_id));
                let (_, v2) = spec_associate(old(self)@, wv);
                assert(v2.sessions.len() == old(self)@.sessions.len());
                assert(forall|j: int| 0 <= j < v2.sessions.len() ==> #[trigger] v2.sessions[j].flow.data_received
                    == old(self)@.sessions[j].flow.data_received);
                assert(forall|j: int| 0 <= j < v2.sessions.len() ==> #[trigger] v2.sessions[j].id == old(self)@.sessions[j].id);
            }
            if extra.len() > 0 || fin {
                self.process_wt_stream_data(quic_stream_id, session_id, extra, fin)?;
            }
            Ok(())
        } else {
            self.put_pending(w);
            Ok(())
        }
    }

    fn process_pending_wt_stream(&mut self, quic_stream_id: u64, data: &[u8], fin: bool) -> (r: Result<()>)
        requires
            old(self).wf(),
            spec_counters_room(old(self)@, data@.len()),
        ensures
            final(self).wf(),
            ({
                let (x, v) = spec_process_pending(old(self)@, quic_stream_id, data@, fin);
                &&& final(self)@ == v
                &&& match x {
                    Ok(_) => r is Ok,
                    Err(k) => r matches Err(e) && e.kind() == k,
                }
            }),
    {
        let i = match self.pending_index(quic_stream_id) {
            Some(i) => i,
            None => {
                return Err(Error::StreamNotFound(quic_stream_id));
            },
        };
        assert(self.pending_wt_streams@[i as int].wf());
        let mut w = self.pending_wt_streams.remove(i);
        assert(self@.pending_wt =~= old(self)@.pending_wt.remove(i as int));
        assert forall|j: int| 0 <= j < self.pending_wt_streams@.len() implies {
            &&& (#[trigger] self.pending_wt_streams@[j]).wf()
            &&& self.pending_wt_streams@[j].header_len <= 16
        } by {
            if j < i {
                assert(self.pending_wt_streams@[j] == old(self).pending_wt_streams@[j]);
            } else {
                assert(self.pending_wt_streams@[j] == old(self).pending_wt_streams@[j + 1]);
            }
        }
        let ghost w0 = w@;
        let consumed = if w.header_len > 0 && w.stream_type == StreamType::UniDirectional {
            let c = w.parse_session_id_only(data)?;
            proof {
                let p0 = if w0.progress.state == HeaderState::AwaitingSignal {
                    HeaderProgress { state: HeaderState::AwaitingSessionId, ..w0.progress }
                } else {
                    w0.progress
                };
                lemma_read_session_id_bound(p0, data@, 0);
            }
            c
        } else {
            let c = w.parse_header(data)?;
            proof {
                lemma_read_header_bound(w0.progress, w0.stream_type, data@, 0);
            }
            c
        };
        let extra = &data[consumed..data.len()];
        assert(extra@ =~= data@.skip(consumed as int));
        self.after_header(w, extra, fin)
    }

    fn classify_new_stream(&mut self, quic_stream_id: u64, data: &[u8], fin: bool) -> (r: Result<bool>)
        requires
            old(self).wf(),
            spec_counters_room(old(self)@, data@.len()),
        ensures
            final(self).wf(),
            ({
                let (x, v) = spec_classify(old(self)@, quic_stream_id, data@, fin);
                &&& final(self)@ == v
                &&& match x {
                    Ok(b) => r == Ok::<bool, Error>(b),
                    Err(k) => r matches Err(e) && e.kind() == k,
                }
            }),
    {
        self.classified_streams.push(quic_stream_id);
        let is_uni = !stream::is_bidi(quic_stream_id);
        if is_uni {
            let stream_type_result = self.h3.classify_uni_stream(quic_stream_id, data)?;
            match stream_type_result {
                Some(t) => {
                    if t == WT_UNI_STREAM_TYPE {
                        let (_, type_len) = varint::decode(data)?;
                        proof {
                            lemma_decode_varint_bound(data@);
                        }
                        let mut w = WtStream::new_incoming(quic_stream_id, StreamType::UniDirectional);
                        let ghost fresh = w;
                        w.header_len = type_len as u64;
                        proof {
                            lemma_wf_same_decoders(fresh, w);
                        }
                        let remaining = &data[type_len..data.len()];
                        assert(remaining@ =~= data@.skip(type_len as int));
                        if remaining.len() > 0 {
                            let ghost w0 = w@;
                            let consumed = w.parse_session_id_only(remaining)?;
                            proof {
                                lemma_read_session_id_bound(
                                    HeaderProgress { state: HeaderState::AwaitingSessionId, ..w0.progress }, remaining@, 0);
                            }
                            let extra = &remaining[consumed..remaining.len()];
                            assert(extra@ =~= remaining@.skip(consumed as int));
                            self.after_header(w, extra, fin)?;
                        } else {
                            self.put_pending(w);
                        }
                        Ok(true)
                    } else {
                        self.process_h3_events()?;
                        Ok(true)
                    }
                },
                None => Ok(false),
            }
        } else {
            if data.len() == 0 {
                return Ok(false);
            }
            let (first_varint, _) = varint::decode(data)?;
            if first_varint == WT_BIDI_SIGNAL {
                let mut w = WtStream::new_incoming(quic_stream_id, StreamType::BiDirectional);
                let ghost w0 = w@;
                let consumed = w.parse_header(data)?;
                proof {
                    lemma_read_header_bound(w0.progress, StreamType::BiDirectional, data@, 0);
                }
                let extra = &data[consumed..data.len()];
                assert(extra@ =~= data@.skip(consumed as int));
                self.after_header(w, extra, fin)?;
                Ok(true)
            } else {
                self.h3.register_request_stream(quic_stream_id);
                self.h3.process_stream_data(quic_stream_id, data, fin)?;
                self.process_h3_events()?;
                Ok(true)
            }
        }
    }

    /// Takes bytes received on QUIC stream `quic_stream_id`; returns whether
    /// the WebTransport layer took them.
    pub fn process_stream_data(&mut self, quic_stream_id: u64, data: &[u8], fin: bool) -> (r: Result<bool>)
        requires
            old(self).wf(),
            spec_counters_room(old(self)@, data@.len()),
        ensures
            final(self).wf(),
            ({
                let (x, v) = spec_process_stream_data(old(self)@, quic_stream_id, data@, fin);
                &&& final(self)@ == v
                &&& match x {
                    Ok(b) => r == Ok::<bool, Error>(b),
                    Err(k) => r matches Err(e) && e.kind() == k,
                }
            }),
    {
        match pair_get(&self.wt_stream_to_session, quic_stream_id) {
            Some(session_id) => {
                proof {
                    lemma_first_pos(old(self)@.sessions, spec_session_is(session_id));
                }
                self.process_wt_stream_data(quic_stream_id, session_id, data, fin)?;
                return Ok(true);
            },
            None => {},
        }
        if self.pending_index(quic_stream_id).is_some() {
            self.process_pending_wt_stream(quic_stream_id, data, fin)?;
            return Ok(true);
        }
        if self.h3.is_h3_stream(quic_stream_id) {
            self.h3.process_stream_data(quic_stream_id, data, fin)?;
            self.process_h3_events()?;
            return Ok(true);
        }
        if !contains_key(&self.classified_streams, quic_stream_id) {
            return self.classify_new_stream(quic_stream_id, data, fin);
        }
        Ok(false)
    }

    /// Takes a received datagram.
    pub fn process_datagram(&mut self, data: &[u8]) -> (r: Result<()>)
        requires
            old(self).wf(),
        ensures
            final(self).wf(),
            match spec_decode_varint(data@) {
                None => r matches Err(e) && e.kind() == ErrorKind::BufferTooShort && final(self)@ == old(self)@,
                Some((q, n)) => match spec_session(old(self)@, (q * 4) as u64) {
                    None => r matches Err(e) && e.kind() == ErrorKind::SessionNotFound((q * 4) as u64)
                        && final(self)@ == old(self)@,
                    Some(_) => r is Ok && final(self)@ == spec_emit(old(self)@,
                        EventView::Datagram { session_id: (q * 4) as u64, payload: data@.skip(n as int) }),
                },
            },
    {
        let (session_id, payload) = self.decode_datagram(data)?;
        self.emit(Event::Datagram { session_id, payload });
        Ok(())
    }

    /// Opens a session as a client, offering `protocols`.
    pub fn connect_with_protocols(
        &mut self,
        authority: &str,
        path: &str,
        origin: Option<&str>,
        extra_headers: &[(&str, &str)],
        protocols: &[&str],
    ) -> (r: Result<(u64, Vec<u8>)>)
        requires
            old(self).wf(),
            old(self)@.h3.next_bidi <= u64::MAX - 4,
        ensures
            final(self).wf(),
            ({
                let pv = spec_str_list_view(protocols@);
                let extra = spec_strs_view(extra_headers@) + seq![("wt-available-protocols"@, spec_protocol_list(pv))];
                let (x, v) = spec_connect(old(self)@, authority@, path@, spec_opt_str(origin), extra);
                match x {
                    Ok((id, b)) => r matches Ok((i, d)) && i == id && d@ == b
                        && final(self)@ == spec_with_session(v, id, |s: SessionView| SessionView { offered_protocols: pv, ..s }),
                    Err(k) => r matches Err(e) && e.kind() == k && final(self)@ == v,
                }
            }),
    {
        let proto_value = protocol_list(protocols);
        let mut headers: Vec<(&str, &str)> = vstd::slice::slice_to_vec(extra_headers);
        headers.push(("wt-available-protocols", proto_value.as_str()));
        assert(spec_strs_view(headers@) =~= spec_strs_view(extra_headers@)
            + seq![("wt-available-protocols"@, spec_protocol_list(spec_str_list_view(protocols@)))]);
        let (session_id, data) = self.connect(authority, path, origin, headers.as_slice())?;
        let ghost v = self@;
        proof {
            lemma_first_pos(v.sessions, spec_session_is(session_id));
        }
        match self.session_index(session_id) {
            Some(i) => {
                let mut offered: Vec<String> = Vec::new();
                let mut j: usize = 0;
                while j < protocols.len()
                    invariant
                        j <= protocols@.len(),
                        spec_strings_view(offered@) == spec_str_list_view(protocols@.take(j as int)),
                    decreases protocols.len() - j,
                {
                    let ghost prev = offered@;
                    let p = protocols[j].to_owned();
                    let ghost pv = p@;
                    offered.push(p);
                    assert(spec_strings_view(offered@) =~= spec_strings_view(prev).push(pv));
                    assert(protocols@.take(j + 1) =~= protocols@.take(j as int).push(protocols@[j as int]));
                    assert(spec_str_list_view(protocols@.take(j + 1)) =~= spec_str_list_view(protocols@.take(j as int)).push(protocols@[j as int]@));
                    j = j + 1;
                }
                assert(protocols@.take(j as int) =~= protocols@);
                let mut session = self.take_session(i);
                session.offered_protocols = offered;
                self.restore_session(i, session);
                assert(self@.sessions =~= spec_with_session(v, session_id,
                    |s: SessionView| SessionView { offered_protocols: spec_str_list_view(protocols@), ..s }).sessions);
            },
            None => {},
        }
        Ok((session_id, data))
    }
}

} // verus!
