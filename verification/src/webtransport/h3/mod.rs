//! The HTTP/3 layer under WebTransport: control and QPACK streams, the
//! peer's SETTINGS, extended CONNECT requests and responses, and the
//! events the frames received produce.
pub mod frame;
pub mod qpack;

use vstd::prelude::*;
use crate::quic_varint::{spec_decode_varint, spec_max_varint, spec_varint_bytes, lemma_decode_varint_bound};
use crate::webtransport::config::{Config, spec_h3_settings};
use crate::numeral::{format_u16, spec_decimal};
use crate::webtransport::error::{Error, ErrorKind, Result};
use crate::webtransport::frame::{
    SETTINGS_WT_MAX_SESSIONS, SETTINGS_ENABLE_CONNECT_PROTOCOL, SETTINGS_H3_DATAGRAM,
    SETTINGS_WT_INITIAL_MAX_STREAMS_UNI, SETTINGS_WT_INITIAL_MAX_STREAMS_BIDI, SETTINGS_WT_INITIAL_MAX_DATA,
    H3_FRAME_DATA, H3_FRAME_HEADERS, H3_FRAME_SETTINGS, H3_FRAME_GOAWAY, H3_STREAM_TYPE_CONTROL,
    H3_STREAM_TYPE_QPACK_ENCODER, H3_STREAM_TYPE_QPACK_DECODER,
};
use crate::webtransport::varint;
use crate::webtransport::h3::frame::{
    H3Frame, H3FrameView, FrameParser, spec_encode_frame, spec_decode_settings, spec_encode_settings,
    spec_parse_frames, spec_frame_results_view, decode_settings, encode_settings,
};
use crate::webtransport::h3::qpack::{
    HeaderBlock, spec_decode_header_block, spec_encode_header_block, spec_strs_view, spec_pairs_view,
    encode_header_block, read_header_block,
};

verus! {

/// What an HTTP/3 stream carries.
#[derive(Debug, Clone, Copy, PartialEq, Eq, Structural)]
pub enum StreamRole {
    Control,
    QpackEncoder,
    QpackDecoder,
    Request,
}

#[derive(Debug)]
struct StreamState {
    id: u64,
    role: StreamRole,
    frame_parser: FrameParser,
}

#[derive(Debug, Clone)]
pub struct PeerSettings {
    pub wt_max_sessions: Option<u64>,
    pub enable_connect_protocol: bool,
    pub h3_datagram: bool,
    pub wt_initial_max_streams_uni: u64,
    pub wt_initial_max_streams_bidi: u64,
    pub wt_initial_max_data: u64,
    pub raw: Vec<(u64, u64)>,
}

/// Mathematical value of [`PeerSettings`].
pub struct PeerSettingsView {
    pub wt_max_sessions: Option<u64>,
    pub enable_connect_protocol: bool,
    pub h3_datagram: bool,
    pub wt_initial_max_streams_uni: u64,
    pub wt_initial_max_streams_bidi: u64,
    pub wt_initial_max_data: u64,
    pub raw: Seq<(u64, u64)>,
}

impl View for PeerSettings {
    type V = PeerSettingsView;

    open spec fn view(&self) -> PeerSettingsView {
        PeerSettingsView {
            wt_max_sessions: self.wt_max_sessions,
            enable_connect_protocol: self.enable_connect_protocol,
            h3_datagram: self.h3_datagram,
            wt_initial_max_streams_uni: self.wt_initial_max_streams_uni,
            wt_initial_max_streams_bidi: self.wt_initial_max_streams_bidi,
            wt_initial_max_data: self.wt_initial_max_data,
            raw: self.raw@,
        }
    }
}

/// Settings before the peer sent any.
pub open spec fn spec_default_peer_settings() -> PeerSettingsView {
    PeerSettingsView {
        wt_max_sessions: None,
        enable_connect_protocol: false,
        h3_datagram: false,
        wt_initial_max_streams_uni: 0,
        wt_initial_max_streams_bidi: 0,
        wt_initial_max_data: 0,
        raw: Seq::empty(),
    }
}

/// The effect of one setting; identifiers this endpoint does not know
/// are ignored.
pub open spec fn spec_apply_setting(p: PeerSettingsView, s: (u64, u64)) -> PeerSettingsView {
    let (id, value) = s;
    if id == SETTINGS_WT_MAX_SESSIONS {
        PeerSettingsView { wt_max_sessions: Some(value), ..p }
    } else if id == SETTINGS_ENABLE_CONNECT_PROTOCOL {
        PeerSettingsView { enable_connect_protocol: value == 1, ..p }
    } else if id == SETTINGS_H3_DATAGRAM {
        PeerSettingsView { h3_datagram: value == 1, ..p }
    } else if id == SETTINGS_WT_INITIAL_MAX_STREAMS_UNI {
        PeerSettingsView { wt_initial_max_streams_uni: value, ..p }
    } else if id == SETTINGS_WT_INITIAL_MAX_STREAMS_BIDI {
        PeerSettingsView { wt_initial_max_streams_bidi: value, ..p }
    } else if id == SETTINGS_WT_INITIAL_MAX_DATA {
        PeerSettingsView { wt_initial_max_data: value, ..p }
    } else {
        p
    }
}

/// The effect of the settings `s`, in order.
pub open spec fn spec_apply_all(p: PeerSettingsView, s: Seq<(u64, u64)>) -> PeerSettingsView
    decreases s.len(),
{
    if s.len() == 0 {
        p
    } else {
        spec_apply_all(spec_apply_setting(p, s[0]), s.skip(1))
    }
}

/// Taking a SETTINGS frame: the settings are kept as received, and each
/// one applied in order.
pub open spec fn spec_apply_settings(p: PeerSettingsView, s: Seq<(u64, u64)>) -> PeerSettingsView {
    spec_apply_all(PeerSettingsView { raw: s, ..p }, s)
}

/// Whether the peer supports WebTransport: it allows a session and
/// supports datagrams.
pub open spec fn spec_supports_webtransport(p: PeerSettingsView) -> bool {
    (p.wt_max_sessions matches Some(v) && v > 0) && p.h3_datagram
}

impl Default for PeerSettings {
    fn default() -> (r: Self)
        ensures
            r@ == spec_default_peer_settings(),
    {
        PeerSettings {
            wt_max_sessions: None,
            enable_connect_protocol: false,
            h3_datagram: false,
            wt_initial_max_streams_uni: 0,
            wt_initial_max_streams_bidi: 0,
            wt_initial_max_data: 0,
            raw: Vec::new(),
        }
    }
}

impl PeerSettings {
    pub fn supports_webtransport(&self) -> (r: bool)
        ensures
            r == spec_supports_webtransport(self@),
    {
        match self.wt_max_sessions {
            Some(v) => v > 0 && self.h3_datagram,
            None => false,
        }
    }

    /// A copy of these settings.
    pub fn duplicate(&self) -> (r: Self)
        ensures
            r@ == self@,
    {
        PeerSettings {
            wt_max_sessions: self.wt_max_sessions,
            enable_connect_protocol: self.enable_connect_protocol,
            h3_datagram: self.h3_datagram,
            wt_initial_max_streams_uni: self.wt_initial_max_streams_uni,
            wt_initial_max_streams_bidi: self.wt_initial_max_streams_bidi,
            wt_initial_max_data: self.wt_initial_max_data,
            raw: vstd::slice::slice_to_vec(self.raw.as_slice()),
        }
    }

    fn apply(&mut self, settings: &[(u64, u64)])
        ensures
            final(self)@ == spec_apply_settings(old(self)@, settings@),
    {
        self.raw = vstd::slice::slice_to_vec(settings);
        let ghost start = self@;
        let mut i: usize = 0;
        assert(settings@.skip(0) =~= settings@);
        while i < settings.len()
            invariant
                i <= settings.len(),
                spec_apply_all(start, settings@) == spec_apply_all(self@, settings@.skip(i as int)),
            decreases settings.len() - i,
        {
            let (id, value) = settings[i];
            assert(settings@.skip(i as int)[0] == (id, value));
            assert(settings@.skip(i as int).skip(1) =~= settings@.skip(i + 1));
            if id == SETTINGS_WT_MAX_SESSIONS {
                self.wt_max_sessions = Some(value);
            } else if id == SETTINGS_ENABLE_CONNECT_PROTOCOL {
                self.enable_connect_protocol = value == 1;
            } else if id == SETTINGS_H3_DATAGRAM {
                self.h3_datagram = value == 1;
            } else if id == SETTINGS_WT_INITIAL_MAX_STREAMS_UNI {
                self.wt_initial_max_streams_uni = value;
            } else if id == SETTINGS_WT_INITIAL_MAX_STREAMS_BIDI {
                self.wt_initial_max_streams_bidi = value;
            } else if id == SETTINGS_WT_INITIAL_MAX_DATA {
                self.wt_initial_max_data = value;
            }
            i = i + 1;
        }
        assert(settings@.skip(i as int) =~= Seq::<(u64, u64)>::empty());
    }
}

#[derive(Debug)]
pub enum H3Event {
    SettingsReceived(PeerSettings),
    HeadersReceived { stream_id: u64, headers: Vec<(String, String)> },
    DataReceived { stream_id: u64, data: Vec<u8> },
    GoAway { stream_id: u64 },
    StreamFinished(u64),
}

/// Mathematical value of an [`H3Event`].
pub enum H3EventView {
    SettingsReceived(PeerSettingsView),
    HeadersReceived { stream_id: u64, headers: Seq<(Seq<char>, Seq<char>)> },
    DataReceived { stream_id: u64, data: Seq<u8> },
    GoAway { stream_id: u64 },
    StreamFinished(u64),
}

impl View for H3Event {
    type V = H3EventView;

    open spec fn view(&self) -> H3EventView {
        match self {
            H3Event::SettingsReceived(p) => H3EventView::SettingsReceived(p@),
            H3Event::HeadersReceived { stream_id, headers } =>
                H3EventView::HeadersReceived { stream_id: *stream_id, headers: spec_pairs_view(headers@) },
            H3Event::DataReceived { stream_id, data } =>
                H3EventView::DataReceived { stream_id: *stream_id, data: data@ },
            H3Event::GoAway { stream_id } => H3EventView::GoAway { stream_id: *stream_id },
            H3Event::StreamFinished(id) => H3EventView::StreamFinished(*id),
        }
    }
}

/// Views of a list of events.
pub open spec fn spec_h3_events_view(es: Seq<H3Event>) -> Seq<H3EventView> {
    es.map_values(|e: H3Event| e@)
}

#[derive(Debug)]
pub struct H3Connection {
    is_server: bool,
    config: Config,
    local_control_stream_id: Option<u64>,
    local_encoder_stream_id: Option<u64>,
    local_decoder_stream_id: Option<u64>,
    peer_control_stream_id: Option<u64>,
    settings_sent: bool,
    settings_received: bool,
    pub peer_settings: PeerSettings,
    streams: Vec<StreamState>,
    pending_events: Vec<H3Event>,
    next_uni_stream_id: u64,
    next_bidi_stream_id: u64,
}

/// Mathematical value of an [`H3Connection`]; each stream is its ID, its
/// role and the bytes its frame parser holds.
pub struct H3View {
    pub is_server: bool,
    pub config: Config,
    pub local_control: Option<u64>,
    pub local_encoder: Option<u64>,
    pub local_decoder: Option<u64>,
    pub peer_control: Option<u64>,
    pub settings_sent: bool,
    pub settings_received: bool,
    pub peer_settings: PeerSettingsView,
    pub streams: Seq<(u64, StreamRole, Seq<u8>)>,
    pub events: Seq<H3EventView>,
    pub next_uni: u64,
    pub next_bidi: u64,
}

/// Views of the streams.
closed spec fn spec_streams_view(s: Seq<StreamState>) -> Seq<(u64, StreamRole, Seq<u8>)> {
    s.map_values(|st: StreamState| (st.id, st.role, st.frame_parser@))
}

impl View for H3Connection {
    type V = H3View;

    closed spec fn view(&self) -> H3View {
        H3View {
            is_server: self.is_server,
            config: self.config,
            local_control: self.local_control_stream_id,
            local_encoder: self.local_encoder_stream_id,
            local_decoder: self.local_decoder_stream_id,
            peer_control: self.peer_control_stream_id,
            settings_sent: self.settings_sent,
            settings_received: self.settings_received,
            peer_settings: self.peer_settings@,
            streams: spec_streams_view(self.streams@),
            events: spec_h3_events_view(self.pending_events@),
            next_uni: self.next_uni_stream_id,
            next_bidi: self.next_bidi_stream_id,
        }
    }
}

/// Position of the first stream with ID `id`, or -1.
pub open spec fn spec_stream_pos(s: Seq<(u64, StreamRole, Seq<u8>)>, id: u64) -> int
    decreases s.len(),
{
    if s.len() == 0 {
        -1
    } else if s[0].0 == id {
        0
    } else {
        let p = spec_stream_pos(s.skip(1), id);
        if p < 0 { -1 } else { p + 1 }
    }
}

/// Registers stream `id` with `role` and an empty frame parser, in place of
/// a stream with that ID if there is one.
pub open spec fn spec_insert_stream(s: Seq<(u64, StreamRole, Seq<u8>)>, id: u64, role: StreamRole)
    -> Seq<(u64, StreamRole, Seq<u8>)>
{
    let p = spec_stream_pos(s, id);
    if p < 0 { s.push((id, role, Seq::empty())) } else { s.update(p, (id, role, Seq::empty())) }
}

pub proof fn lemma_stream_pos(s: Seq<(u64, StreamRole, Seq<u8>)>, id: u64)
    ensures
        -1 <= spec_stream_pos(s, id) < s.len(),
        spec_stream_pos(s, id) >= 0 ==> s[spec_stream_pos(s, id)].0 == id,
        spec_stream_pos(s, id) >= 0 ==> forall|j: int| 0 <= j < spec_stream_pos(s, id) ==> s[j].0 != id,
        spec_stream_pos(s, id) < 0 ==> forall|j: int| 0 <= j < s.len() ==> s[j].0 != id,
    decreases s.len(),
{
    if s.len() > 0 && s[0].0 != id {
        let t = s.skip(1);
        lemma_stream_pos(t, id);
        let p = spec_stream_pos(s, id);
        if p >= 0 {
            assert forall|j: int| 0 <= j < p implies s[j].0 != id by {
                if j > 0 {
                    assert(s[j] == t[j - 1]);
                }
            }
        } else {
            assert forall|j: int| 0 <= j < s.len() implies s[j].0 != id by {
                if j > 0 {
                    assert(s[j] == t[j - 1]);
                }
            }
        }
    }
}

/// The event the frame `f` on stream `stream_id` of role `role` yields, or
/// the error it raises. SETTINGS and GOAWAY count on the control stream,
/// HEADERS and DATA on request streams; any other frame is ignored.
pub open spec fn spec_frame_effect(v: H3View, stream_id: u64, role: StreamRole, f: H3FrameView)
    -> core::result::Result<H3View, ErrorKind>
{
    if role == StreamRole::Control && f.frame_type == H3_FRAME_SETTINGS {
        match spec_decode_settings(f.payload) {
            Ok(s) => {
                let ps = spec_apply_settings(v.peer_settings, s);
                Ok(H3View {
                    peer_settings: ps,
                    settings_received: true,
                    events: v.events.push(H3EventView::SettingsReceived(ps)),
                    ..v
                })
            },
            Err(k) => Err(k),
        }
    } else if role == StreamRole::Control && f.frame_type == H3_FRAME_GOAWAY {
        match spec_decode_varint(f.payload) {
            Some((g, _)) => Ok(H3View { events: v.events.push(H3EventView::GoAway { stream_id: g }), ..v }),
            None => Err(ErrorKind::BufferTooShort),
        }
    } else if role == StreamRole::Request && f.frame_type == H3_FRAME_HEADERS {
        match spec_decode_header_block(f.payload) {
            HeaderBlock::Headers(h) => Ok(H3View {
                events: v.events.push(H3EventView::HeadersReceived { stream_id, headers: h }),
                ..v
            }),
            _ => Err(ErrorKind::QpackError),
        }
    } else if role == StreamRole::Request && f.frame_type == H3_FRAME_DATA {
        Ok(H3View { events: v.events.push(H3EventView::DataReceived { stream_id, data: f.payload }), ..v })
    } else {
        Ok(v)
    }
}

/// The effect of the decoded frames (or errors) `frames`, in order, up to
/// the first error.
pub open spec fn spec_frames_effect(
    v: H3View,
    stream_id: u64,
    role: StreamRole,
    frames: Seq<core::result::Result<H3FrameView, ErrorKind>>,
) -> (core::result::Result<(), ErrorKind>, H3View)
    decreases frames.len(),
{
    if frames.len() == 0 {
        (Ok(()), v)
    } else {
        match frames[0] {
            Ok(f) => match spec_frame_effect(v, stream_id, role, f) {
                Ok(v2) => spec_frames_effect(v2, stream_id, role, frames.skip(1)),
                Err(k) => (Err(k), v),
            },
            Err(k) => (Err(k), v),
        }
    }
}

/// Taking `data` on stream `stream_id`: on a stream that is not an HTTP/3
/// stream, nothing; else the complete frames are decoded and take effect
/// in order, and the end of a request stream is reported.
pub open spec fn spec_process_stream_data(v: H3View, stream_id: u64, data: Seq<u8>, fin: bool)
    -> (core::result::Result<bool, ErrorKind>, H3View)
{
    let p = spec_stream_pos(v.streams, stream_id);
    if p < 0 {
        (Ok(false), v)
    } else {
        let (sid, role, buf) = v.streams[p];
        let (frames, rem) = spec_parse_frames(buf + data);
        let v1 = H3View { streams: v.streams.update(p, (sid, role, rem)), ..v };
        let (r, v2) = spec_frames_effect(v1, stream_id, role, frames);
        match r {
            Err(k) => (Err(k), v2),
            Ok(_) => if fin && role == StreamRole::Request {
                (Ok(true), H3View { events: v2.events.push(H3EventView::StreamFinished(stream_id)), ..v2 })
            } else {
                (Ok(true), v2)
            },
        }
    }
}

/// Classifying a new unidirectional stream by its stream type: the
/// control and QPACK streams are registered, and what follows
/// the type on the control stream is taken at once; the stream type comes
/// back, or `None` when there is no byte yet.
pub open spec fn spec_classify_uni(v: H3View, stream_id: u64, data: Seq<u8>)
    -> (core::result::Result<Option<u64>, ErrorKind>, H3View)
{
    if data.len() == 0 {
        (Ok(None), v)
    } else {
        match spec_decode_varint(data) {
            None => (Err(ErrorKind::BufferTooShort), v),
            Some((t, n)) => if t == H3_STREAM_TYPE_CONTROL {
                if v.peer_control is Some {
                    (Err(ErrorKind::H3FrameError), v)
                } else {
                    let v1 = H3View {
                        peer_control: Some(stream_id),
                        streams: spec_insert_stream(v.streams, stream_id, StreamRole::Control),
                        ..v
                    };
                    if data.len() > n {
                        let (x, v2) = spec_process_stream_data(v1, stream_id, data.skip(n as int), false);
                        match x {
                            Ok(_) => (Ok(Some(t)), v2),
                            Err(k) => (Err(k), v2),
                        }
                    } else {
                        (Ok(Some(t)), v1)
                    }
                }
            } else if t == H3_STREAM_TYPE_QPACK_ENCODER {
                (Ok(Some(t)), H3View { streams: spec_insert_stream(v.streams, stream_id, StreamRole::QpackEncoder), ..v })
            } else if t == H3_STREAM_TYPE_QPACK_DECODER {
                (Ok(Some(t)), H3View { streams: spec_insert_stream(v.streams, stream_id, StreamRole::QpackDecoder), ..v })
            } else {
                (Ok(Some(t)), v)
            },
        }
    }
}

/// What `initialize` sends: the control stream (type, then SETTINGS) and
/// the two QPACK streams, on the next three unidirectional stream IDs.
pub open spec fn spec_initialize(v: H3View) -> (core::result::Result<Seq<(u64, Seq<u8>)>, ErrorKind>, H3View) {
    if v.settings_sent {
        (Ok(Seq::empty()), v)
    } else {
        let c = v.next_uni;
        match spec_encode_settings(spec_h3_settings(v.config)) {
            Err(k) => (Err(k), H3View { next_uni: (c + 4) as u64, local_control: Some(c), ..v }),
            Ok(sf) => (
                Ok(seq![
                    (c, spec_varint_bytes(H3_STREAM_TYPE_CONTROL) + sf),
                    ((c + 4) as u64, spec_varint_bytes(H3_STREAM_TYPE_QPACK_ENCODER)),
                    ((c + 8) as u64, spec_varint_bytes(H3_STREAM_TYPE_QPACK_DECODER)),
                ]),
                H3View {
                    next_uni: (c + 12) as u64,
                    local_control: Some(c),
                    local_encoder: Some((c + 4) as u64),
                    local_decoder: Some((c + 8) as u64),
                    settings_sent: true,
                    ..v
                },
            ),
        }
    }
}

/// A new HTTP/3 layer: nothing sent or received; client streams are even,
/// server streams odd.
pub open spec fn spec_h3_new(is_server: bool, config: Config) -> H3View {
    H3View {
        is_server,
        config,
        local_control: None,
        local_encoder: None,
        local_decoder: None,
        peer_control: None,
        settings_sent: false,
        settings_received: false,
        peer_settings: spec_default_peer_settings(),
        streams: Seq::empty(),
        events: Seq::empty(),
        next_uni: if is_server { 3 } else { 2 },
        next_bidi: if is_server { 1 } else { 0 },
    }
}

/// The fields of an extended CONNECT request for WebTransport.
pub open spec fn spec_connect_headers(
    authority: Seq<char>,
    path: Seq<char>,
    origin: Option<Seq<char>>,
    extra: Seq<(Seq<char>, Seq<char>)>,
) -> Seq<(Seq<char>, Seq<char>)> {
    seq![
        (":method"@, "CONNECT"@),
        (":protocol"@, "webtransport"@),
        (":scheme"@, "https"@),
        (":authority"@, authority),
        (":path"@, path),
    ] + (match origin { Some(o) => seq![("origin"@, o)], None => Seq::empty() }) + extra
}

/// The fields of a response with status `status`.
pub open spec fn spec_response_headers(status: u16, extra: Seq<(Seq<char>, Seq<char>)>) -> Seq<(Seq<char>, Seq<char>)> {
    seq![(":status"@, spec_decimal(status as nat))] + extra
}

/// The HEADERS frame that carries `h`.
pub open spec fn spec_headers_frame(h: Seq<(Seq<char>, Seq<char>)>) -> core::result::Result<Seq<u8>, ErrorKind> {
    spec_encode_frame(H3FrameView { frame_type: H3_FRAME_HEADERS, payload: spec_encode_header_block(h) })
}

/// View of an optional string.
pub open spec fn spec_opt_str(o: Option<&str>) -> Option<Seq<char>> {
    match o {
        Some(s) => Some(s@),
        None => None,
    }
}

/// Views of a list of (stream ID, bytes) pairs.
pub open spec fn spec_sends_view(s: Seq<(u64, Vec<u8>)>) -> Seq<(u64, Seq<u8>)> {
    s.map_values(|p: (u64, Vec<u8>)| (p.0, p.1@))
}

/// Appends the varint `v` to a new buffer.
fn varint_buf(v: u64) -> (r: Vec<u8>)
    requires
        v <= spec_max_varint(),
    ensures
        r@ == spec_varint_bytes(v),
{
    match varint::encode_vec(v) {
        Ok(b) => b,
        Err(_) => Vec::new(),
    }
}

impl H3Connection {
    pub fn new(is_server: bool, config: Config) -> (c: Self)
        ensures
            c@ == spec_h3_new(is_server, config),
    {
        let next_uni_stream_id = if is_server { 3 } else { 2 };
        let next_bidi_stream_id = if is_server { 1 } else { 0 };
        let c = H3Connection {
            is_server,
            config,
            local_control_stream_id: None,
            local_encoder_stream_id: None,
            local_decoder_stream_id: None,
            peer_control_stream_id: None,
            settings_sent: false,
            settings_received: false,
            peer_settings: PeerSettings::default(),
            streams: Vec::new(),
            pending_events: Vec::new(),
            next_uni_stream_id,
            next_bidi_stream_id,
        };
        assert(spec_streams_view(c.streams@) =~= Seq::empty());
        assert(spec_h3_events_view(c.pending_events@) =~= Seq::empty());
        c
    }

    /// The settings the peer sent.
    pub fn peer_settings(&self) -> (r: &PeerSettings)
        ensures
            r@ == self@.peer_settings,
    {
        &self.peer_settings
    }

    /// The bytes that start HTTP/3 on the QUIC connection, as (stream ID,
    /// data) pairs; nothing once sent.
    pub fn initialize(&mut self) -> (r: Result<Vec<(u64, Vec<u8>)>>)
        requires
            old(self)@.next_uni <= u64::MAX - 12,
        ensures
            ({
                let (s, v) = spec_initialize(old(self)@);
                &&& final(self)@ == v
                &&& match s {
                    Ok(x) => r matches Ok(y) && spec_sends_view(y@) == x,
                    Err(k) => r matches Err(e) && e.kind() == k,
                }
            }),
    {
        if self.settings_sent {
            let e: Vec<(u64, Vec<u8>)> = Vec::new();
            assert(spec_sends_view(e@) =~= Seq::empty());
            return Ok(e);
        }
        let control_id = self.alloc_uni_stream_id();
        self.local_control_stream_id = Some(control_id);
        let mut control_data = varint_buf(H3_STREAM_TYPE_CONTROL);
        let settings = self.config.h3_settings();
        let mut settings_frame = encode_settings(settings.as_slice())?;
        control_data.append(&mut settings_frame);
        let mut sends: Vec<(u64, Vec<u8>)> = Vec::new();
        sends.push((control_id, control_data));
        let encoder_id = self.alloc_uni_stream_id();
        self.local_encoder_stream_id = Some(encoder_id);
        sends.push((encoder_id, varint_buf(H3_STREAM_TYPE_QPACK_ENCODER)));
        let decoder_id = self.alloc_uni_stream_id();
        self.local_decoder_stream_id = Some(decoder_id);
        sends.push((decoder_id, varint_buf(H3_STREAM_TYPE_QPACK_DECODER)));
        self.settings_sent = true;
        proof {
            let (s, v) = spec_initialize(old(self)@);
            assert(spec_sends_view(sends@) =~= s->Ok_0);
        }
        Ok(sends)
    }

    /// Opens a request stream with an extended CONNECT for WebTransport;
    /// returns its stream ID and the HEADERS frame to send on it.
    pub fn send_connect_request(
        &mut self,
        authority: &str,
        path: &str,
        origin: Option<&str>,
        extra_headers: &[(&str, &str)],
    ) -> (r: Result<(u64, Vec<u8>)>)
        requires
            old(self)@.next_bidi <= u64::MAX - 4,
        ensures
            ({
                let v = old(self)@;
                let id = v.next_bidi;
                let h = spec_connect_headers(authority@, path@, spec_opt_str(origin), spec_strs_view(extra_headers@));
                match spec_headers_frame(h) {
                    Ok(b) => r matches Ok((i, x)) && i == id && x@ == b && final(self)@ == (H3View {
                        next_bidi: (id + 4) as u64,
                        streams: spec_insert_stream(v.streams, id, StreamRole::Request),
                        ..v
                    }),
                    Err(k) => r matches Err(e) && e.kind() == k
                        && final(self)@ == (H3View { next_bidi: (id + 4) as u64, ..v }),
                }
            }),
    {
        let stream_id = self.alloc_bidi_stream_id();
        let mut headers: Vec<(&str, &str)> = Vec::new();
        headers.push((":method", "CONNECT"));
        headers.push((":protocol", "webtransport"));
        headers.push((":scheme", "https"));
        headers.push((":authority", authority));
        headers.push((":path", path));
        match origin {
            Some(o) => {
                headers.push(("origin", o));
            },
            None => {},
        }
        let ghost base = headers@;
        let mut i: usize = 0;
        while i < extra_headers.len()
            invariant
                i <= extra_headers.len(),
                headers@ == base + extra_headers@.take(i as int),
            decreases extra_headers.len() - i,
        {
            headers.push(extra_headers[i]);
            assert(extra_headers@.take(i + 1) =~= extra_headers@.take(i as int).push(extra_headers@[i as int]));
            i = i + 1;
        }
        assert(extra_headers@.take(i as int) =~= extra_headers@);
        let ghost h = spec_connect_headers(authority@, path@, spec_opt_str(origin), spec_strs_view(extra_headers@));
        assert(spec_strs_view(headers@) =~= h);
        let block = encode_header_block(headers.as_slice());
        let h3_frame = H3Frame { frame_type: H3_FRAME_HEADERS, payload: block };
        let mut buf: Vec<u8> = Vec::new();
        match h3_frame.encode(&mut buf) {
            Ok(_) => {},
            Err(e) => {
                return Err(e);
            },
        }
        assert(buf@ =~= Seq::<u8>::empty() + buf@);
        self.insert_stream(stream_id, StreamRole::Request);
        Ok((stream_id, buf))
    }

    /// The HEADERS frame of a response with status `status`.
    pub fn send_connect_response(&mut self, _stream_id: u64, status: u16, extra_headers: &[(&str, &str)]) -> (r: Result<Vec<u8>>)
        ensures
            final(self)@ == old(self)@,
            match spec_headers_frame(spec_response_headers(status, spec_strs_view(extra_headers@))) {
                Ok(b) => r matches Ok(x) && x@ == b,
                Err(k) => r matches Err(e) && e.kind() == k,
            },
    {
        let status_str = format_u16(status);
        let mut headers: Vec<(&str, &str)> = Vec::new();
        headers.push((":status", status_str.as_str()));
        let ghost base = headers@;
        let mut i: usize = 0;
        while i < extra_headers.len()
            invariant
                i <= extra_headers.len(),
                headers@ == base + extra_headers@.take(i as int),
            decreases extra_headers.len() - i,
        {
            headers.push(extra_headers[i]);
            assert(extra_headers@.take(i + 1) =~= extra_headers@.take(i as int).push(extra_headers@[i as int]));
            i = i + 1;
        }
        assert(extra_headers@.take(i as int) =~= extra_headers@);
        assert(spec_strs_view(headers@) =~= spec_response_headers(status, spec_strs_view(extra_headers@)));
        let block = encode_header_block(headers.as_slice());
        let h3_frame = H3Frame { frame_type: H3_FRAME_HEADERS, payload: block };
        let mut buf: Vec<u8> = Vec::new();
        match h3_frame.encode(&mut buf) {
            Ok(_) => {},
            Err(e) => {
                return Err(e);
            },
        }
        assert(buf@ =~= Seq::<u8>::empty() + buf@);
        Ok(buf)
    }

    /// `data` as the payload of a DATA frame.
    pub fn encode_body_as_h3_data(&self, data: &[u8]) -> (r: Result<Vec<u8>>)
        ensures
            match spec_encode_frame(H3FrameView { frame_type: H3_FRAME_DATA, payload: data@ }) {
                Ok(b) => r matches Ok(x) && x@ == b,
                Err(k) => r matches Err(e) && e.kind() == k,
            },
    {
        let frame = H3Frame { frame_type: H3_FRAME_DATA, payload: vstd::slice::slice_to_vec(data) };
        let mut buf: Vec<u8> = Vec::new();
        match frame.encode(&mut buf) {
            Ok(_) => {},
            Err(e) => {
                return Err(e);
            },
        }
        assert(buf@ =~= Seq::<u8>::empty() + buf@);
        Ok(buf)
    }

    /// Position of stream `id` in the stream list.
    fn stream_index(&self, id: u64) -> (r: Option<usize>)
        ensures
            match r {
                Some(i) => spec_stream_pos(self@.streams, id) == i,
                None => spec_stream_pos(self@.streams, id) < 0,
            },
    {
        proof {
            lemma_stream_pos(self@.streams, id);
        }
        let mut i: usize = 0;
        while i < self.streams.len()
            invariant
                i <= self.streams@.len(),
                forall|j: int| 0 <= j < i ==> self@.streams[j].0 != id,
                spec_stream_pos(self@.streams, id) >= 0 ==> i <= spec_stream_pos(self@.streams, id),
                -1 <= spec_stream_pos(self@.streams, id) < self@.streams.len(),
                spec_stream_pos(self@.streams, id) >= 0 ==> self@.streams[spec_stream_pos(self@.streams, id)].0 == id,
                spec_stream_pos(self@.streams, id) >= 0 ==> forall|j: int| 0 <= j < spec_stream_pos(self@.streams, id) ==> self@.streams[j].0 != id,
                spec_stream_pos(self@.streams, id) < 0 ==> forall|j: int| 0 <= j < self@.streams.len() ==> self@.streams[j].0 != id,
            decreases self.streams.len() - i,
        {
            assert(self@.streams[i as int].0 == self.streams@[i as int].id);
            if self.streams[i].id == id {
                proof {
                    let p = spec_stream_pos(self@.streams, id);
                    if p != i as int {
                        assert(self@.streams[i as int].0 != id);
                    }
                }
                return Some(i);
            }
            i = i + 1;
        }
        None
    }

    /// Registers stream `id` with `role` and a fresh frame parser.
    fn insert_stream(&mut self, id: u64, role: StreamRole)
        ensures
            final(self)@ == (H3View { streams: spec_insert_stream(old(self)@.streams, id, role), ..old(self)@ }),
    {
        let st = StreamState { id, role, frame_parser: FrameParser::new() };
        assert(st.frame_parser@ =~= Seq::<u8>::empty());
        proof {
            lemma_stream_pos(old(self)@.streams, id);
        }
        match self.stream_index(id) {
            Some(i) => {
                self.streams.remove(i);
                self.streams.insert(i, st);
                assert(self.streams@ =~= old(self).streams@.update(i as int, st));
            },
            None => {
                self.streams.push(st);
            },
        }
        assert(self@.streams =~= spec_insert_stream(old(self)@.streams, id, role));
    }

    /// Takes `data` received on stream `stream_id`; returns whether the
    /// stream is an HTTP/3 stream (control, QPACK or request).
    pub fn process_stream_data(&mut self, stream_id: u64, data: &[u8], fin: bool) -> (r: Result<bool>)
        ensures
            ({
                let (x, v) = spec_process_stream_data(old(self)@, stream_id, data@, fin);
                &&& final(self)@ == v
                &&& match x {
                    Ok(b) => r == Ok::<bool, Error>(b),
                    Err(k) => r matches Err(e) && e.kind() == k,
                }
            }),
    {
        proof {
            lemma_stream_pos(old(self)@.streams, stream_id);
        }
        let idx = match self.stream_index(stream_id) {
            Some(i) => i,
            None => {
                return Ok(false);
            },
        };
        let ghost old_st = self.streams@[idx as int];
        let mut st = self.streams.remove(idx);
        let role = st.role;
        let mut frames = st.frame_parser.feed(data);
        let ghost rem = st.frame_parser@;
        self.streams.insert(idx, st);
        proof {
            assert(old(self)@.streams[idx as int] == (old_st.id, old_st.role, old_st.frame_parser@));
            assert(self.streams@ =~= old(self).streams@.update(idx as int, st));
            assert(self@.streams =~= old(self)@.streams.update(idx as int, (stream_id, role, rem)));
        }
        let ghost v1 = self@;
        let ghost all = spec_frame_results_view(frames@);
        let ghost target = spec_frames_effect(v1, stream_id, role, all);
        assert(v1 == (H3View { streams: old(self)@.streams.update(idx as int, (stream_id, role, rem)), ..old(self)@ }));
        let mut failure: Option<Error> = None;
        while failure.is_none() && frames.len() > 0
            invariant
                failure is None ==> target == spec_frames_effect(self@, stream_id, role, spec_frame_results_view(frames@)),
                failure matches Some(e) ==> target == (Err::<(), ErrorKind>(e.kind()), self@),
            decreases frames.len(),
        {
            let ghost rest = spec_frame_results_view(frames@);
            let fr = frames.remove(0);
            assert(spec_frame_results_view(frames@) =~= rest.skip(1));
            match fr {
                Ok(f) => {
                    assert(rest[0] == Ok::<H3FrameView, ErrorKind>(f@));
                    match self.process_frame(stream_id, role, &f) {
                        Ok(()) => {},
                        Err(e) => {
                            failure = Some(e);
                        },
                    }
                },
                Err(e) => {
                    assert(rest[0] == Err::<H3FrameView, ErrorKind>(e.kind()));
                    failure = Some(e);
                },
            }
        }
        match failure {
            Some(e) => {
                return Err(e);
            },
            None => {},
        }
        assert(spec_frame_results_view(frames@) =~= Seq::empty());
        if fin {
            if role == StreamRole::Request {
                self.pending_events.push(H3Event::StreamFinished(stream_id));
                assert(self@.events =~= target.1.events.push(H3EventView::StreamFinished(stream_id)));
            }
        }
        Ok(true)
    }

    /// Takes the events produced so far.
    pub fn drain_events(&mut self) -> (r: Vec<H3Event>)
        ensures
            spec_h3_events_view(r@) == old(self)@.events,
            final(self)@ == (H3View { events: Seq::empty(), ..old(self)@ }),
    {
        let mut out: Vec<H3Event> = Vec::new();
        std::mem::swap(&mut out, &mut self.pending_events);
        assert(spec_h3_events_view(self.pending_events@) =~= Seq::empty());
        out
    }

    pub fn has_settings(&self) -> (r: bool)
        ensures
            r == self@.settings_received,
    {
        self.settings_received
    }

    /// Classifies a new unidirectional stream by its stream type: the
    /// control and QPACK streams are registered, and what
    /// follows the type on the control stream is taken at once. Returns the
    /// stream type, or `None` when `data` is empty.
    pub fn classify_uni_stream(&mut self, stream_id: u64, data: &[u8]) -> (r: Result<Option<u64>>)
        ensures
            ({
                let (x, v) = spec_classify_uni(old(self)@, stream_id, data@);
                &&& final(self)@ == v
                &&& match x {
                    Ok(t) => r == Ok::<Option<u64>, Error>(t),
                    Err(k) => r matches Err(e) && e.kind() == k,
                }
            }),
    {
        if data.len() == 0 {
            return Ok(None);
        }
        let (stream_type, type_len) = varint::decode(data)?;
        proof {
            lemma_decode_varint_bound(data@);
        }
        if stream_type == H3_STREAM_TYPE_CONTROL {
            if self.peer_control_stream_id.is_some() {
                return Err(Error::H3FrameError("duplicate control stream".to_owned()));
            }
            self.peer_control_stream_id = Some(stream_id);
            self.insert_stream(stream_id, StreamRole::Control);
            if data.len() > type_len {
                let rest = &data[type_len..data.len()];
                assert(rest@ =~= data@.skip(type_len as int));
                self.process_stream_data(stream_id, rest, false)?;
            }
            Ok(Some(stream_type))
        } else if stream_type == H3_STREAM_TYPE_QPACK_ENCODER {
            self.insert_stream(stream_id, StreamRole::QpackEncoder);
            Ok(Some(stream_type))
        } else if stream_type == H3_STREAM_TYPE_QPACK_DECODER {
            self.insert_stream(stream_id, StreamRole::QpackDecoder);
            Ok(Some(stream_type))
        } else {
            Ok(Some(stream_type))
        }
    }

    /// Registers a request stream the peer opened.
    pub fn register_request_stream(&mut self, stream_id: u64)
        ensures
            final(self)@ == (H3View { streams: spec_insert_stream(old(self)@.streams, stream_id, StreamRole::Request), ..old(self)@ }),
    {
        self.insert_stream(stream_id, StreamRole::Request);
    }

    pub fn is_h3_stream(&self, stream_id: u64) -> (r: bool)
        ensures
            r == (spec_stream_pos(self@.streams, stream_id) >= 0),
    {
        self.stream_index(stream_id).is_some()
    }

    fn process_frame(&mut self, stream_id: u64, role: StreamRole, h3_frame: &H3Frame) -> (r: Result<()>)
        ensures
            match spec_frame_effect(old(self)@, stream_id, role, h3_frame@) {
                Ok(v2) => r is Ok && final(self)@ == v2,
                Err(k) => r matches Err(e) && e.kind() == k && final(self)@ == old(self)@,
            },
    {
        if role == StreamRole::Control && h3_frame.frame_type == H3_FRAME_SETTINGS {
            let settings = decode_settings(h3_frame.payload.as_slice())?;
            self.peer_settings.apply(settings.as_slice());
            self.settings_received = true;
            let copy = self.peer_settings.duplicate();
            self.pending_events.push(H3Event::SettingsReceived(copy));
        } else if role == StreamRole::Control && h3_frame.frame_type == H3_FRAME_GOAWAY {
            let (go_stream_id, _) = varint::decode(h3_frame.payload.as_slice())?;
            self.pending_events.push(H3Event::GoAway { stream_id: go_stream_id });
        } else if role == StreamRole::Request && h3_frame.frame_type == H3_FRAME_HEADERS {
            let headers = read_header_block(h3_frame.payload.as_slice())?;
            self.pending_events.push(H3Event::HeadersReceived { stream_id, headers });
        } else if role == StreamRole::Request && h3_frame.frame_type == H3_FRAME_DATA {
            let data = vstd::slice::slice_to_vec(h3_frame.payload.as_slice());
            self.pending_events.push(H3Event::DataReceived { stream_id, data });
        }
        proof {
            if let Ok(v2) = spec_frame_effect(old(self)@, stream_id, role, h3_frame@) {
                assert(self@.events =~= v2.events);
            }
        }
        Ok(())
    }

    fn alloc_uni_stream_id(&mut self) -> (id: u64)
        requires
            old(self)@.next_uni <= u64::MAX - 4,
        ensures
            id == old(self)@.next_uni,
            final(self)@ == (H3View { next_uni: (id + 4) as u64, ..old(self)@ }),
    {
        let id = self.next_uni_stream_id;
        self.next_uni_stream_id = self.next_uni_stream_id + 4;
        id
    }

    fn alloc_bidi_stream_id(&mut self) -> (id: u64)
        requires
            old(self)@.next_bidi <= u64::MAX - 4,
        ensures
            id == old(self)@.next_bidi,
            final(self)@ == (H3View { next_bidi: (id + 4) as u64, ..old(self)@ }),
    {
        let id = self.next_bidi_stream_id;
        self.next_bidi_stream_id = self.next_bidi_stream_id + 4;
        id
    }
}

} // verus!
