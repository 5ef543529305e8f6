//! Session-level flow control: stream and data limits in both
//! directions.
use vstd::prelude::*;
use crate::webtransport::capsule::{Capsule, CapsuleView};
use crate::webtransport::error::{Error, ErrorKind, Result};

verus! {

#[derive(Debug, Clone)]
pub struct FlowController {
    local_max_streams_bidi: u64,
    local_max_streams_uni: u64,
    peer_max_streams_bidi: u64,
    peer_max_streams_uni: u64,
    streams_opened_bidi: u64,
    streams_opened_uni: u64,
    peer_streams_opened_bidi: u64,
    peer_streams_opened_uni: u64,
    local_max_data: u64,
    peer_max_data: u64,
    data_sent: u64,
    data_received: u64,
    enabled: bool,
}

/// Mathematical value of a [`FlowController`].
pub struct FlowView {
    pub local_max_streams_bidi: u64,
    pub local_max_streams_uni: u64,
    pub peer_max_streams_bidi: u64,
    pub peer_max_streams_uni: u64,
    pub streams_opened_bidi: u64,
    pub streams_opened_uni: u64,
    pub peer_streams_opened_bidi: u64,
    pub peer_streams_opened_uni: u64,
    pub local_max_data: u64,
    pub peer_max_data: u64,
    pub data_sent: u64,
    pub data_received: u64,
    pub enabled: bool,
}

impl View for FlowController {
    type V = FlowView;

    closed spec fn view(&self) -> FlowView {
        FlowView {
            local_max_streams_bidi: self.local_max_streams_bidi,
            local_max_streams_uni: self.local_max_streams_uni,
            peer_max_streams_bidi: self.peer_max_streams_bidi,
            peer_max_streams_uni: self.peer_max_streams_uni,
            streams_opened_bidi: self.streams_opened_bidi,
            streams_opened_uni: self.streams_opened_uni,
            peer_streams_opened_bidi: self.peer_streams_opened_bidi,
            peer_streams_opened_uni: self.peer_streams_opened_uni,
            local_max_data: self.local_max_data,
            peer_max_data: self.peer_max_data,
            data_sent: self.data_sent,
            data_received: self.data_received,
            enabled: self.enabled,
        }
    }
}

/// Whether a stream of the given kind may be opened.
pub open spec fn spec_can_open(f: FlowView, bidi: bool) -> bool {
    !f.enabled || if bidi { f.streams_opened_bidi < f.peer_max_streams_bidi } else { f.streams_opened_uni < f.peer_max_streams_uni }
}

/// Whether `len` more bytes may be sent.
pub open spec fn spec_can_send(f: FlowView, len: u64) -> bool {
    !f.enabled || f.data_sent + len <= f.peer_max_data
}

/// A new controller: flow control is on when any initial limit is
/// non-zero; the peer's limits start at zero.
pub open spec fn spec_new_flow(initial_max_streams_bidi: u64, initial_max_streams_uni: u64, initial_max_data: u64) -> FlowView {
    FlowView {
        local_max_streams_bidi: initial_max_streams_bidi,
        local_max_streams_uni: initial_max_streams_uni,
        peer_max_streams_bidi: 0,
        peer_max_streams_uni: 0,
        streams_opened_bidi: 0,
        streams_opened_uni: 0,
        peer_streams_opened_bidi: 0,
        peer_streams_opened_uni: 0,
        local_max_data: initial_max_data,
        peer_max_data: 0,
        data_sent: 0,
        data_received: 0,
        enabled: initial_max_streams_bidi > 0 || initial_max_streams_uni > 0 || initial_max_data > 0,
    }
}

impl FlowController {
    /// Flow control is on when any initial limit is non-zero; the peer's
    /// limits start at zero.
    pub fn new(initial_max_streams_bidi: u64, initial_max_streams_uni: u64, initial_max_data: u64) -> (r: Self)
        ensures
            r@ == spec_new_flow(initial_max_streams_bidi, initial_max_streams_uni, initial_max_data),
    {
        let enabled = initial_max_streams_bidi > 0 || initial_max_streams_uni > 0 || initial_max_data > 0;
        FlowController {
            local_max_streams_bidi: initial_max_streams_bidi,
            local_max_streams_uni: initial_max_streams_uni,
            peer_max_streams_bidi: 0,
            peer_max_streams_uni: 0,
            streams_opened_bidi: 0,
            streams_opened_uni: 0,
            peer_streams_opened_bidi: 0,
            peer_streams_opened_uni: 0,
            local_max_data: initial_max_data,
            peer_max_data: 0,
            data_sent: 0,
            data_received: 0,
            enabled,
        }
    }

    pub fn is_enabled(&self) -> (r: bool)
        ensures
            r == self@.enabled,
    {
        self.enabled
    }

    pub fn set_enabled(&mut self, enabled: bool)
        ensures
            final(self)@ == (FlowView { enabled, ..old(self)@ }),
    {
        self.enabled = enabled;
    }

    pub fn can_open_bidi(&self) -> (r: bool)
        ensures
            r == spec_can_open(self@, true),
    {
        !self.enabled || self.streams_opened_bidi < self.peer_max_streams_bidi
    }

    pub fn can_open_uni(&self) -> (r: bool)
        ensures
            r == spec_can_open(self@, false),
    {
        !self.enabled || self.streams_opened_uni < self.peer_max_streams_uni
    }

    pub fn can_send(&self, len: u64) -> (r: bool)
        requires
            self@.enabled ==> self@.data_sent + len <= u64::MAX,
        ensures
            r == spec_can_send(self@, len),
    {
        !self.enabled || self.data_sent + len <= self.peer_max_data
    }

    pub fn on_stream_opened_local(&mut self, bidi: bool)
        requires
            bidi ==> old(self)@.streams_opened_bidi < u64::MAX,
            !bidi ==> old(self)@.streams_opened_uni < u64::MAX,
        ensures
            bidi ==> final(self)@ == (FlowView { streams_opened_bidi: (old(self)@.streams_opened_bidi + 1) as u64, ..old(self)@ }),
            !bidi ==> final(self)@ == (FlowView { streams_opened_uni: (old(self)@.streams_opened_uni + 1) as u64, ..old(self)@ }),
    {
        if bidi {
            self.streams_opened_bidi = self.streams_opened_bidi + 1;
        } else {
            self.streams_opened_uni = self.streams_opened_uni + 1;
        }
    }

    pub fn on_stream_opened_remote(&mut self, bidi: bool)
        requires
            bidi ==> old(self)@.peer_streams_opened_bidi < u64::MAX,
            !bidi ==> old(self)@.peer_streams_opened_uni < u64::MAX,
        ensures
            bidi ==> final(self)@ == (FlowView { peer_streams_opened_bidi: (old(self)@.peer_streams_opened_bidi + 1) as u64, ..old(self)@ }),
            !bidi ==> final(self)@ == (FlowView { peer_streams_opened_uni: (old(self)@.peer_streams_opened_uni + 1) as u64, ..old(self)@ }),
    {
        if bidi {
            self.peer_streams_opened_bidi = self.peer_streams_opened_bidi + 1;
        } else {
            self.peer_streams_opened_uni = self.peer_streams_opened_uni + 1;
        }
    }

    pub fn on_data_sent(&mut self, len: u64)
        requires
            old(self)@.data_sent + len <= u64::MAX,
        ensures
            final(self)@ == (FlowView { data_sent: (old(self)@.data_sent + len) as u64, ..old(self)@ }),
    {
        self.data_sent = self.data_sent + len;
    }

    pub fn on_data_received(&mut self, len: u64)
        requires
            old(self)@.data_received + len <= u64::MAX,
        ensures
            final(self)@ == (FlowView { data_received: (old(self)@.data_received + len) as u64, ..old(self)@ }),
    {
        self.data_received = self.data_received + len;
    }

    /// Takes a new bidirectional stream limit from the peer; with flow
    /// control on, a limit may only grow.
    pub fn apply_peer_max_streams_bidi(&mut self, max: u64) -> (r: Result<()>)
        ensures
            old(self)@.enabled && max < old(self)@.peer_max_streams_bidi
                ==> (r matches Err(e) && e.kind() == ErrorKind::FlowControlError && final(self)@ == old(self)@),
            !(old(self)@.enabled && max < old(self)@.peer_max_streams_bidi)
                ==> r is Ok && final(self)@ == (FlowView { peer_max_streams_bidi: max, ..old(self)@ }),
    {
        if self.enabled && max < self.peer_max_streams_bidi {
            return Err(Error::FlowControlError);
        }
        self.peer_max_streams_bidi = max;
        Ok(())
    }

    /// Takes a new unidirectional stream limit from the peer.
    pub fn apply_peer_max_streams_uni(&mut self, max: u64) -> (r: Result<()>)
        ensures
            old(self)@.enabled && max < old(self)@.peer_max_streams_uni
                ==> (r matches Err(e) && e.kind() == ErrorKind::FlowControlError && final(self)@ == old(self)@),
            !(old(self)@.enabled && max < old(self)@.peer_max_streams_uni)
                ==> r is Ok && final(self)@ == (FlowView { peer_max_streams_uni: max, ..old(self)@ }),
    {
        if self.enabled && max < self.peer_max_streams_uni {
            return Err(Error::FlowControlError);
        }
        self.peer_max_streams_uni = max;
        Ok(())
    }

    /// Takes a new data limit from the peer.
    pub fn apply_peer_max_data(&mut self, max: u64) -> (r: Result<()>)
        ensures
            old(self)@.enabled && max < old(self)@.peer_max_data
                ==> (r matches Err(e) && e.kind() == ErrorKind::FlowControlError && final(self)@ == old(self)@),
            !(old(self)@.enabled && max < old(self)@.peer_max_data)
                ==> r is Ok && final(self)@ == (FlowView { peer_max_data: max, ..old(self)@ }),
    {
        if self.enabled && max < self.peer_max_data {
            return Err(Error::FlowControlError);
        }
        self.peer_max_data = max;
        Ok(())
    }

    pub fn set_peer_initial_limits(&mut self, max_streams_bidi: u64, max_streams_uni: u64, max_data: u64)
        ensures
            final(self)@ == (FlowView {
                peer_max_streams_bidi: max_streams_bidi,
                peer_max_streams_uni: max_streams_uni,
                peer_max_data: max_data,
                ..old(self)@
            }),
    {
        self.peer_max_streams_bidi = max_streams_bidi;
        self.peer_max_streams_uni = max_streams_uni;
        self.peer_max_data = max_data;
    }

    pub fn local_max_streams_bidi(&self) -> (r: u64)
        ensures
            r == self@.local_max_streams_bidi,
    {
        self.local_max_streams_bidi
    }

    pub fn local_max_streams_uni(&self) -> (r: u64)
        ensures
            r == self@.local_max_streams_uni,
    {
        self.local_max_streams_uni
    }

    pub fn local_max_data(&self) -> (r: u64)
        ensures
            r == self@.local_max_data,
    {
        self.local_max_data
    }

    pub fn peer_max_streams_bidi(&self) -> (r: u64)
        ensures
            r == self@.peer_max_streams_bidi,
    {
        self.peer_max_streams_bidi
    }

    pub fn peer_max_streams_uni(&self) -> (r: u64)
        ensures
            r == self@.peer_max_streams_uni,
    {
        self.peer_max_streams_uni
    }

    pub fn peer_max_data(&self) -> (r: u64)
        ensures
            r == self@.peer_max_data,
    {
        self.peer_max_data
    }

    /// Applies the limits a capsule raises; other capsules change nothing.
    pub fn process_capsule(&mut self, capsule: &Capsule) -> (r: Result<()>)
        ensures
            match capsule@ {
                CapsuleView::MaxStreamsBidi(v) => if old(self)@.enabled && v < old(self)@.peer_max_streams_bidi {
                    r matches Err(e) && e.kind() == ErrorKind::FlowControlError && final(self)@ == old(self)@
                } else {
                    r is Ok && final(self)@ == (FlowView { peer_max_streams_bidi: v, ..old(self)@ })
                },
                CapsuleView::MaxStreamsUni(v) => if old(self)@.enabled && v < old(self)@.peer_max_streams_uni {
                    r matches Err(e) && e.kind() == ErrorKind::FlowControlError && final(self)@ == old(self)@
                } else {
                    r is Ok && final(self)@ == (FlowView { peer_max_streams_uni: v, ..old(self)@ })
                },
                CapsuleView::MaxData(v) => if old(self)@.enabled && v < old(self)@.peer_max_data {
                    r matches Err(e) && e.kind() == ErrorKind::FlowControlError && final(self)@ == old(self)@
                } else {
                    r is Ok && final(self)@ == (FlowView { peer_max_data: v, ..old(self)@ })
                },
                _ => r is Ok && final(self)@ == old(self)@,
            },
    {
        match capsule {
            Capsule::MaxStreamsBidi(v) => self.apply_peer_max_streams_bidi(*v),
            Capsule::MaxStreamsUni(v) => self.apply_peer_max_streams_uni(*v),
            Capsule::MaxData(v) => self.apply_peer_max_data(*v),
            _ => Ok(()),
        }
    }
}

/// With flow control on, the peer's limits never shrink: whatever limit
/// the peer sends, after applying it the limit is at least what it was.
pub proof fn law_peer_limits_monotone(before: FlowView, after: FlowView, max: u64)
    requires
        before.enabled,
        after == (FlowView { peer_max_data: max, ..before }) || after == before,
        after == before || max >= before.peer_max_data,
    ensures
        after.peer_max_data >= before.peer_max_data,
{
}

} // verus!
