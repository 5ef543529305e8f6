//! Connection configuration and the SETTINGS it advertises.
use vstd::prelude::*;
use crate::webtransport::frame::{
    SETTINGS_WT_MAX_SESSIONS, SETTINGS_ENABLE_CONNECT_PROTOCOL, SETTINGS_QPACK_MAX_TABLE_CAPACITY,
    SETTINGS_QPACK_BLOCKED_STREAMS, SETTINGS_H3_DATAGRAM, SETTINGS_WT_INITIAL_MAX_STREAMS_UNI,
    SETTINGS_WT_INITIAL_MAX_STREAMS_BIDI, SETTINGS_WT_INITIAL_MAX_DATA,
};

verus! {

#[derive(Debug, Clone)]
pub struct Config {
    pub max_sessions: u64,
    pub initial_max_streams_uni: u64,
    pub initial_max_streams_bidi: u64,
    pub initial_max_data: u64,
    pub max_buffered_streams: usize,
    pub max_buffered_datagrams: usize,
    pub enable_datagrams: bool,
}

impl Default for Config {
    fn default() -> (r: Self)
        ensures
            r.max_sessions == 1,
            r.initial_max_streams_uni == 100,
            r.initial_max_streams_bidi == 100,
            r.initial_max_data == 1_048_576,
            r.max_buffered_streams == 16,
            r.max_buffered_datagrams == 16,
            r.enable_datagrams,
    {
        Config {
            max_sessions: 1,
            initial_max_streams_uni: 100,
            initial_max_streams_bidi: 100,
            initial_max_data: 1_048_576,
            max_buffered_streams: 16,
            max_buffered_datagrams: 16,
            enable_datagrams: true,
        }
    }
}

/// The SETTINGS a configuration advertises, in order: the session limit,
/// extended CONNECT, no QPACK dynamic table, then datagrams and the
/// non-zero initial flow-control limits.
pub open spec fn spec_h3_settings(c: Config) -> Seq<(u64, u64)> {
    seq![
        (SETTINGS_WT_MAX_SESSIONS, c.max_sessions),
        (SETTINGS_ENABLE_CONNECT_PROTOCOL, 1u64),
        (SETTINGS_QPACK_MAX_TABLE_CAPACITY, 0u64),
        (SETTINGS_QPACK_BLOCKED_STREAMS, 0u64),
    ]
        + (if c.enable_datagrams { seq![(SETTINGS_H3_DATAGRAM, 1u64)] } else { Seq::empty() })
        + (if c.initial_max_streams_uni > 0 { seq![(SETTINGS_WT_INITIAL_MAX_STREAMS_UNI, c.initial_max_streams_uni)] } else { Seq::empty() })
        + (if c.initial_max_streams_bidi > 0 { seq![(SETTINGS_WT_INITIAL_MAX_STREAMS_BIDI, c.initial_max_streams_bidi)] } else { Seq::empty() })
        + (if c.initial_max_data > 0 { seq![(SETTINGS_WT_INITIAL_MAX_DATA, c.initial_max_data)] } else { Seq::empty() })
}

/// What the advertised SETTINGS say, setting by setting: each identifier
/// appears at most once; WT_MAX_SESSIONS (0x14e9cd29) carries the session
/// limit and ENABLE_CONNECT_PROTOCOL (0x08) is 1; H3_DATAGRAM (0x33) is 1
/// and present exactly when datagrams are enabled; and
/// WT_INITIAL_MAX_STREAMS_UNI (0x2b64), WT_INITIAL_MAX_STREAMS_BIDI
/// (0x2b65) and WT_INITIAL_MAX_DATA (0x2b61) carry the configured initial
/// unidirectional stream, bidirectional stream and data limits, present
/// exactly when that limit is not zero.
pub proof fn law_h3_settings_values(c: Config)
    ensures
        forall|i: int, j: int| 0 <= i < j < spec_h3_settings(c).len()
            ==> (#[trigger] spec_h3_settings(c)[i]).0 != (#[trigger] spec_h3_settings(c)[j]).0,
        spec_has_setting(spec_h3_settings(c), 0x14e9cd29, c.max_sessions),
        spec_has_setting(spec_h3_settings(c), 0x08, 1),
        c.enable_datagrams ==> spec_has_setting(spec_h3_settings(c), 0x33, 1),
        !c.enable_datagrams ==> !spec_names_setting(spec_h3_settings(c), 0x33),
        c.initial_max_streams_uni > 0 ==> spec_has_setting(spec_h3_settings(c), 0x2b64, c.initial_max_streams_uni),
        c.initial_max_streams_uni == 0 ==> !spec_names_setting(spec_h3_settings(c), 0x2b64),
        c.initial_max_streams_bidi > 0 ==> spec_has_setting(spec_h3_settings(c), 0x2b65, c.initial_max_streams_bidi),
        c.initial_max_streams_bidi == 0 ==> !spec_names_setting(spec_h3_settings(c), 0x2b65),
        c.initial_max_data > 0 ==> spec_has_setting(spec_h3_settings(c), 0x2b61, c.initial_max_data),
        c.initial_max_data == 0 ==> !spec_names_setting(spec_h3_settings(c), 0x2b61),
{
    let s = spec_h3_settings(c);
    let head = seq![
        (SETTINGS_WT_MAX_SESSIONS, c.max_sessions),
        (SETTINGS_ENABLE_CONNECT_PROTOCOL, 1u64),
        (SETTINGS_QPACK_MAX_TABLE_CAPACITY, 0u64),
        (SETTINGS_QPACK_BLOCKED_STREAMS, 0u64),
    ];
    let d = if c.enable_datagrams { seq![(SETTINGS_H3_DATAGRAM, 1u64)] } else { Seq::<(u64, u64)>::empty() };
    let u = if c.initial_max_streams_uni > 0 { seq![(SETTINGS_WT_INITIAL_MAX_STREAMS_UNI, c.initial_max_streams_uni)] } else { Seq::<(u64, u64)>::empty() };
    let b = if c.initial_max_streams_bidi > 0 { seq![(SETTINGS_WT_INITIAL_MAX_STREAMS_BIDI, c.initial_max_streams_bidi)] } else { Seq::<(u64, u64)>::empty() };
    let m = if c.initial_max_data > 0 { seq![(SETTINGS_WT_INITIAL_MAX_DATA, c.initial_max_data)] } else { Seq::<(u64, u64)>::empty() };
    assert(s == head + d + u + b + m);
    let p1: int = 4 + d.len() as int;
    let p2: int = p1 + u.len();
    let p3: int = p2 + b.len();
    assert forall|i: int| 0 <= i < s.len() implies {
        let x = #[trigger] s[i];
        if i < 4 { x == head[i] }
        else if i < p1 { x == d[i - 4] }
        else if i < p2 { x == u[i - p1] }
        else if i < p3 { x == b[i - p2] }
        else { x == m[i - p3] }
    } by {
        assert((head + d + u + b + m)[i] == s[i]);
    }
    assert(s[0] == (0x14e9cd29u64, c.max_sessions));
    assert(s[1] == (0x08u64, 1u64));
    if c.enable_datagrams { assert(s[4] == (0x33u64, 1u64)); }
    if c.initial_max_streams_uni > 0 { assert(s[p1] == (0x2b64u64, c.initial_max_streams_uni)); }
    if c.initial_max_streams_bidi > 0 { assert(s[p2] == (0x2b65u64, c.initial_max_streams_bidi)); }
    if c.initial_max_data > 0 { assert(s[p3] == (0x2b61u64, c.initial_max_data)); }
}

/// Whether the SETTINGS list `s` gives setting `id` the value `v`.
pub open spec fn spec_has_setting(s: Seq<(u64, u64)>, id: u64, v: u64) -> bool {
    exists|i: int| 0 <= i < s.len() && #[trigger] s[i] == (id, v)
}

/// Whether the SETTINGS list `s` names setting `id`.
pub open spec fn spec_names_setting(s: Seq<(u64, u64)>, id: u64) -> bool {
    exists|i: int| 0 <= i < s.len() && (#[trigger] s[i]).0 == id
}

impl Config {
    /// A copy of this configuration.
    pub fn duplicate(&self) -> (r: Config)
        ensures
            r == *self,
    {
        Config {
            max_sessions: self.max_sessions,
            initial_max_streams_uni: self.initial_max_streams_uni,
            initial_max_streams_bidi: self.initial_max_streams_bidi,
            initial_max_data: self.initial_max_data,
            max_buffered_streams: self.max_buffered_streams,
            max_buffered_datagrams: self.max_buffered_datagrams,
            enable_datagrams: self.enable_datagrams,
        }
    }

    /// The SETTINGS that advertise WebTransport support.
    pub fn h3_settings(&self) -> (r: Vec<(u64, u64)>)
        ensures
            r@ == spec_h3_settings(*self),
    {
        let mut s: Vec<(u64, u64)> = Vec::new();
        s.push((SETTINGS_WT_MAX_SESSIONS, self.max_sessions));
        s.push((SETTINGS_ENABLE_CONNECT_PROTOCOL, 1));
        s.push((SETTINGS_QPACK_MAX_TABLE_CAPACITY, 0));
        s.push((SETTINGS_QPACK_BLOCKED_STREAMS, 0));
        let ghost a = s@;
        if self.enable_datagrams {
            s.push((SETTINGS_H3_DATAGRAM, 1));
        }
        let ghost b = s@;
        if self.initial_max_streams_uni > 0 {
            s.push((SETTINGS_WT_INITIAL_MAX_STREAMS_UNI, self.initial_max_streams_uni));
        }
        let ghost c = s@;
        if self.initial_max_streams_bidi > 0 {
            s.push((SETTINGS_WT_INITIAL_MAX_STREAMS_BIDI, self.initial_max_streams_bidi));
        }
        let ghost d = s@;
        if self.initial_max_data > 0 {
            s.push((SETTINGS_WT_INITIAL_MAX_DATA, self.initial_max_data));
        }
        assert(s@ =~= spec_h3_settings(*self));
        s
    }
}

} // verus!
