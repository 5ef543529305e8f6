//! Wire constants of WebTransport over HTTP/3, in one place.
use vstd::prelude::*;

verus! {

// HTTP/3 SETTINGS parameters

/// Maximum number of concurrent WebTransport sessions the endpoint
/// accepts; 0 means WebTransport is not supported.
pub const SETTINGS_WT_MAX_SESSIONS: u64 = 0x14e9cd29;
/// Initial session-level limit on unidirectional streams.
pub const SETTINGS_WT_INITIAL_MAX_STREAMS_UNI: u64 = 0x2b64;
/// Initial session-level limit on bidirectional streams.
pub const SETTINGS_WT_INITIAL_MAX_STREAMS_BIDI: u64 = 0x2b65;
/// Initial session-level data limit.
pub const SETTINGS_WT_INITIAL_MAX_DATA: u64 = 0x2b61;
/// Extended CONNECT.
pub const SETTINGS_ENABLE_CONNECT_PROTOCOL: u64 = 0x08;
/// HTTP/3 datagrams.
pub const SETTINGS_H3_DATAGRAM: u64 = 0x33;
/// QPACK maximum dynamic table capacity.
pub const SETTINGS_QPACK_MAX_TABLE_CAPACITY: u64 = 0x01;
/// QPACK maximum blocked streams.
pub const SETTINGS_QPACK_BLOCKED_STREAMS: u64 = 0x07;
/// Maximum header list size.
pub const SETTINGS_MAX_FIELD_SECTION_SIZE: u64 = 0x06;

// HTTP/3 frame types

pub const H3_FRAME_DATA: u64 = 0x00;
pub const H3_FRAME_HEADERS: u64 = 0x01;
pub const H3_FRAME_SETTINGS: u64 = 0x04;
pub const H3_FRAME_GOAWAY: u64 = 0x07;

// HTTP/3 unidirectional stream types

pub const H3_STREAM_TYPE_CONTROL: u64 = 0x00;
pub const H3_STREAM_TYPE_PUSH: u64 = 0x01;
pub const H3_STREAM_TYPE_QPACK_ENCODER: u64 = 0x02;
pub const H3_STREAM_TYPE_QPACK_DECODER: u64 = 0x03;

// WebTransport stream types and signals

/// Unidirectional WebTransport stream type.
pub const WT_UNI_STREAM_TYPE: u64 = 0x54;
/// Bidirectional WebTransport stream signal.
pub const WT_BIDI_SIGNAL: u64 = 0x41;

// HTTP capsule types

pub const CAPSULE_CLOSE_SESSION: u64 = 0x2843;
pub const CAPSULE_DRAIN_SESSION: u64 = 0x78ae;
pub const CAPSULE_MAX_DATA: u64 = 0x190B4D3D;
pub const CAPSULE_MAX_STREAMS_BIDI: u64 = 0x190B4D3F;
pub const CAPSULE_MAX_STREAMS_UNI: u64 = 0x190B4D40;
pub const CAPSULE_DATA_BLOCKED: u64 = 0x190B4D41;
pub const CAPSULE_STREAMS_BLOCKED_BIDI: u64 = 0x190B4D43;
pub const CAPSULE_STREAMS_BLOCKED_UNI: u64 = 0x190B4D44;

// HTTP/3 error codes

/// A data stream rejected because no session could be associated.
pub const WT_BUFFERED_STREAM_REJECTED: u64 = 0x3994bd84;
/// A data stream aborted because its session is gone.
pub const WT_SESSION_GONE: u64 = 0x170d7b68;
/// A session aborted for a flow-control violation.
pub const WT_FLOW_CONTROL_ERROR: u64 = 0x045d4487;

// WebTransport application error code range

pub const WT_APP_ERROR_FIRST: u64 = 0x52e4a40fa8db;
pub const WT_APP_ERROR_LAST: u64 = 0x52e5ac983162;

pub const H3_FRAME_ERROR: u64 = 0x0106;
pub const H3_ID_ERROR: u64 = 0x0108;
pub const H3_SETTINGS_ERROR: u64 = 0x0109;
pub const H3_REQUEST_REJECTED: u64 = 0x010b;
pub const H3_MESSAGE_ERROR: u64 = 0x010e;
/// PRIORITY_UPDATE frame for request streams.
pub const H3_FRAME_PRIORITY_UPDATE: u64 = 0x0f;

} // verus!
