//! A WebTransport session: its state, flow control, data streams and the
//! CONNECT request that opened it.
use vstd::prelude::*;
use crate::webtransport::capsule::CapsuleParser;
use crate::webtransport::flow_control::{FlowController, FlowView, spec_new_flow};
use crate::first_pos::{spec_first_pos, lemma_first_pos, lemma_first_pos_at};
use crate::webtransport::stream::{WtStream, WtStreamView};

verus! {

#[derive(Debug, Clone, Copy, PartialEq, Eq, Structural)]
pub enum SessionState {
    Connecting,
    Established,
    Draining,
    Closed,
}

pub struct Session {
    pub id: u64,
    pub state: SessionState,
    pub flow_control: FlowController,
    /// Data streams of the session, by QUIC stream ID.
    pub streams: Vec<WtStream>,
    pub capsule_parser: CapsuleParser,
    pub authority: String,
    pub path: String,
    pub origin: Option<String>,
    pub offered_protocols: Vec<String>,
    pub negotiated_protocol: Option<String>,
}

/// Mathematical value of a [`Session`].
pub struct SessionView {
    pub id: u64,
    pub state: SessionState,
    pub flow: FlowView,
    pub streams: Seq<WtStreamView>,
    pub capsule_buf: Seq<u8>,
    pub authority: Seq<char>,
    pub path: Seq<char>,
    pub origin: Option<Seq<char>>,
    pub offered_protocols: Seq<Seq<char>>,
    pub negotiated_protocol: Option<Seq<char>>,
}

/// View of an optional string.
pub open spec fn spec_opt_string(o: Option<String>) -> Option<Seq<char>> {
    match o {
        Some(s) => Some(s@),
        None => None,
    }
}

/// Views of a list of strings.
pub open spec fn spec_strings_view(v: Seq<String>) -> Seq<Seq<char>> {
    v.map_values(|s: String| s@)
}

impl View for Session {
    type V = SessionView;

    open spec fn view(&self) -> SessionView {
        SessionView {
            id: self.id,
            state: self.state,
            flow: self.flow_control@,
            streams: spec_wt_streams_view(self.streams@),
            capsule_buf: self.capsule_parser@,
            authority: self.authority@,
            path: self.path@,
            origin: spec_opt_string(self.origin),
            offered_protocols: spec_strings_view(self.offered_protocols@),
            negotiated_protocol: spec_opt_string(self.negotiated_protocol),
        }
    }
}

/// Views of a list of data streams.
pub open spec fn spec_wt_streams_view(v: Seq<WtStream>) -> Seq<WtStreamView> {
    v.map_values(|s: WtStream| s@)
}

/// The stream test of a list of data streams.
pub open spec fn spec_stream_is(id: u64) -> spec_fn(WtStreamView) -> bool {
    |s: WtStreamView| s.quic_stream_id == id
}

/// `streams` with `stream` registered under its QUIC stream ID.
pub open spec fn spec_register_stream(streams: Seq<WtStreamView>, stream: WtStreamView) -> Seq<WtStreamView> {
    let i = spec_first_pos(streams, spec_stream_is(stream.quic_stream_id));
    if i < 0 { streams.push(stream) } else { streams.update(i, stream) }
}

/// The QUIC stream IDs of `streams`, in order.
pub open spec fn spec_stream_ids(streams: Seq<WtStreamView>) -> Seq<u64> {
    streams.map_values(|s: WtStreamView| s.quic_stream_id)
}

impl Session {
    pub fn new(id: u64, initial_max_streams_bidi: u64, initial_max_streams_uni: u64, initial_max_data: u64) -> (s: Self)
        ensures
            s@ == (SessionView {
                id,
                state: SessionState::Connecting,
                flow: spec_new_flow(initial_max_streams_bidi, initial_max_streams_uni, initial_max_data),
                streams: Seq::empty(),
                capsule_buf: Seq::empty(),
                authority: Seq::empty(),
                path: Seq::empty(),
                origin: None,
                offered_protocols: Seq::empty(),
                negotiated_protocol: None,
            }),
    {
        let s = Session {
            id,
            state: SessionState::Connecting,
            flow_control: FlowController::new(initial_max_streams_bidi, initial_max_streams_uni, initial_max_data),
            streams: Vec::new(),
            capsule_parser: CapsuleParser::new(),
            authority: String::new(),
            path: String::new(),
            origin: None,
            offered_protocols: Vec::new(),
            negotiated_protocol: None,
        };
        assert(s@.streams =~= Seq::empty());
        assert(s@.capsule_buf =~= Seq::empty());
        assert(s@.offered_protocols =~= Seq::empty());
        s
    }

    pub fn is_established(&self) -> (r: bool)
        ensures
            r == (self.state == SessionState::Established),
    {
        self.state == SessionState::Established
    }

    pub fn is_closed(&self) -> (r: bool)
        ensures
            r == (self.state == SessionState::Closed),
    {
        self.state == SessionState::Closed
    }

    fn stream_index(&self, quic_stream_id: u64) -> (r: Option<usize>)
        ensures
            match r {
                Some(i) => spec_first_pos(self@.streams, spec_stream_is(quic_stream_id)) == i,
                None => spec_first_pos(self@.streams, spec_stream_is(quic_stream_id)) < 0,
            },
    {
        proof {
            lemma_first_pos(self@.streams, spec_stream_is(quic_stream_id));
        }
        let mut i: usize = 0;
        while i < self.streams.len()
            invariant
                i <= self.streams@.len(),
                forall|j: int| 0 <= j < i ==> !spec_stream_is(quic_stream_id)(#[trigger] self@.streams[j]),
            decreases self.streams.len() - i,
        {
            assert(self@.streams[i as int] == self.streams@[i as int]@);
            if self.streams[i].quic_stream_id == quic_stream_id {
                proof {
                    lemma_first_pos_at(self@.streams, spec_stream_is(quic_stream_id), i as int);
                }
                return Some(i);
            }
            i = i + 1;
        }
        None
    }

    /// Registers `stream` under its QUIC stream ID, in place of a stream
    /// with that ID if there is one.
    pub fn register_stream(&mut self, stream: WtStream)
        ensures
            final(self)@ == (SessionView { streams: spec_register_stream(old(self)@.streams, stream@), ..old(self)@ }),
    {
        proof {
            lemma_first_pos(self@.streams, spec_stream_is(stream.quic_stream_id));
        }
        let ghost sv = stream@;
        match self.stream_index(stream.quic_stream_id) {
            Some(i) => {
                self.streams.remove(i);
                self.streams.insert(i, stream);
                assert(self.streams@ =~= old(self).streams@.update(i as int, stream));
                assert(self@.streams =~= old(self)@.streams.update(i as int, sv));
            },
            None => {
                self.streams.push(stream);
                assert(self@.streams =~= old(self)@.streams.push(sv));
            },
        }
    }

    /// Removes the stream with QUIC stream ID `quic_stream_id` and gives it
    /// back.
    pub fn remove_stream(&mut self, quic_stream_id: u64) -> (r: Option<WtStream>)
        ensures
            ({
                let i = spec_first_pos(old(self)@.streams, spec_stream_is(quic_stream_id));
                if i < 0 {
                    r is None && final(self)@ == old(self)@
                } else {
                    r matches Some(w) && w@ == old(self)@.streams[i]
                        && final(self)@ == (SessionView { streams: old(self)@.streams.remove(i), ..old(self)@ })
                }
            }),
    {
        proof {
            lemma_first_pos(self@.streams, spec_stream_is(quic_stream_id));
        }
        match self.stream_index(quic_stream_id) {
            Some(i) => {
                let w = self.streams.remove(i);
                assert(self@.streams =~= old(self)@.streams.remove(i as int));
                Some(w)
            },
            None => None,
        }
    }

    /// The QUIC stream IDs of the session's data streams.
    pub fn stream_ids(&self) -> (r: Vec<u64>)
        ensures
            r@ == spec_stream_ids(self@.streams),
    {
        let mut out: Vec<u64> = Vec::new();
        let mut i: usize = 0;
        while i < self.streams.len()
            invariant
                i <= self.streams@.len(),
                out@ == spec_stream_ids(self@.streams.take(i as int)),
            decreases self.streams.len() - i,
        {
            out.push(self.streams[i].quic_stream_id);
            assert(spec_stream_ids(self@.streams.take(i + 1)) =~= spec_stream_ids(self@.streams.take(i as int)).push(self@.streams[i as int].quic_stream_id));
            i = i + 1;
        }
        assert(self@.streams.take(i as int) =~= self@.streams);
        out
    }
}

} // verus!
