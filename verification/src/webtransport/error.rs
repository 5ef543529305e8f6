//! Errors of the WebTransport layer, and the mapping between WebTransport
//! application error codes and HTTP/3 error codes.
use vstd::prelude::*;
use crate::webtransport::frame::{WT_APP_ERROR_FIRST, WT_APP_ERROR_LAST};
use crate::numeral::{format_u64, joined, spec_decimal};

verus! {

pub type Result<T> = core::result::Result<T, Error>;

#[derive(Debug, Clone, PartialEq, Eq)]
pub enum Error {
    // transport / framing
    BufferTooShort,
    VarintOverflow,
    Incomplete,
    // H3 / QPACK
    H3FrameError(String),
    H3SettingsError(String),
    QpackError(String),
    H3ConnectionClosed(String),
    // WebTransport protocol
    SessionNotFound(u64),
    SessionClosed,
    SessionLimitReached,
    FlowControlError,
    InvalidSessionId(u64),
    StreamNotFound(u64),
    ProtocolViolation(String),
    CapsuleError(String),
    CloseMessageTooLong,
    // operational
    Done,
    StreamBlocked,
    TransportError(String),
}

/// What an [`Error`] says, without its free-form text.
#[derive(Debug, Clone, Copy, PartialEq, Eq)]
pub enum ErrorKind {
    BufferTooShort,
    VarintOverflow,
    Incomplete,
    H3FrameError,
    H3SettingsError,
    QpackError,
    H3ConnectionClosed,
    SessionNotFound(u64),
    SessionClosed,
    SessionLimitReached,
    FlowControlError,
    InvalidSessionId(u64),
    StreamNotFound(u64),
    ProtocolViolation,
    CapsuleError,
    CloseMessageTooLong,
    Done,
    StreamBlocked,
    TransportError,
}

impl Error {
    pub open spec fn kind(&self) -> ErrorKind {
        match self {
            Error::BufferTooShort => ErrorKind::BufferTooShort,
            Error::VarintOverflow => ErrorKind::VarintOverflow,
            Error::Incomplete => ErrorKind::Incomplete,
            Error::H3FrameError(_) => ErrorKind::H3FrameError,
            Error::H3SettingsError(_) => ErrorKind::H3SettingsError,
            Error::QpackError(_) => ErrorKind::QpackError,
            Error::H3ConnectionClosed(_) => ErrorKind::H3ConnectionClosed,
            Error::SessionNotFound(id) => ErrorKind::SessionNotFound(*id),
            Error::SessionClosed => ErrorKind::SessionClosed,
            Error::SessionLimitReached => ErrorKind::SessionLimitReached,
            Error::FlowControlError => ErrorKind::FlowControlError,
            Error::InvalidSessionId(id) => ErrorKind::InvalidSessionId(*id),
            Error::StreamNotFound(id) => ErrorKind::StreamNotFound(*id),
            Error::ProtocolViolation(_) => ErrorKind::ProtocolViolation,
            Error::CapsuleError(_) => ErrorKind::CapsuleError,
            Error::CloseMessageTooLong => ErrorKind::CloseMessageTooLong,
            Error::Done => ErrorKind::Done,
            Error::StreamBlocked => ErrorKind::StreamBlocked,
            Error::TransportError(_) => ErrorKind::TransportError,
        }
    }

    /// What [`Error::message`] says: the text its `Display` shows.
    pub open spec fn spec_message(&self) -> Seq<char> {
        match self {
            Error::BufferTooShort => "buffer too short"@,
            Error::VarintOverflow => "varint exceeds maximum value (2^62 - 1)"@,
            Error::Incomplete => "incomplete data: need more bytes"@,
            Error::H3FrameError(s) => "H3 frame error: "@ + s@,
            Error::H3SettingsError(s) => "H3 settings error: "@ + s@,
            Error::QpackError(s) => "QPACK decoding error: "@ + s@,
            Error::H3ConnectionClosed(s) => "H3 connection closed: "@ + s@,
            Error::SessionNotFound(id) => "session not found: "@ + spec_decimal(*id as nat),
            Error::SessionClosed => "session already closed"@,
            Error::SessionLimitReached => "session limit reached"@,
            Error::FlowControlError => "flow control error"@,
            Error::InvalidSessionId(id) => "invalid session id: "@ + spec_decimal(*id as nat),
            Error::StreamNotFound(id) => "stream not found: "@ + spec_decimal(*id as nat),
            Error::ProtocolViolation(s) => "protocol violation: "@ + s@,
            Error::CapsuleError(s) => "capsule decode error: "@ + s@,
            Error::CloseMessageTooLong => "close message too long (max 1024 bytes)"@,
            Error::Done => "no more events"@,
            Error::StreamBlocked => "stream blocked on flow control"@,
            Error::TransportError(s) => "transport error: "@ + s@,
        }
    }

    /// Human-readable description of the error.
    pub fn message(&self) -> (r: String)
        ensures
            r@ == self.spec_message(),
    {
        match self {
            Error::BufferTooShort => "buffer too short".to_owned(),
            Error::VarintOverflow => "varint exceeds maximum value (2^62 - 1)".to_owned(),
            Error::Incomplete => "incomplete data: need more bytes".to_owned(),
            Error::H3FrameError(s) => joined("H3 frame error: ", s.as_str()),
            Error::H3SettingsError(s) => joined("H3 settings error: ", s.as_str()),
            Error::QpackError(s) => joined("QPACK decoding error: ", s.as_str()),
            Error::H3ConnectionClosed(s) => joined("H3 connection closed: ", s.as_str()),
            Error::SessionNotFound(id) => joined("session not found: ", format_u64(*id).as_str()),
            Error::SessionClosed => "session already closed".to_owned(),
            Error::SessionLimitReached => "session limit reached".to_owned(),
            Error::FlowControlError => "flow control error".to_owned(),
            Error::InvalidSessionId(id) => joined("invalid session id: ", format_u64(*id).as_str()),
            Error::StreamNotFound(id) => joined("stream not found: ", format_u64(*id).as_str()),
            Error::ProtocolViolation(s) => joined("protocol violation: ", s.as_str()),
            Error::CapsuleError(s) => joined("capsule decode error: ", s.as_str()),
            Error::CloseMessageTooLong => "close message too long (max 1024 bytes)".to_owned(),
            Error::Done => "no more events".to_owned(),
            Error::StreamBlocked => "stream blocked on flow control".to_owned(),
            Error::TransportError(s) => joined("transport error: ", s.as_str()),
        }
    }
}

/// HTTP/3 code of WebTransport application error `n`: codes are laid out
/// from `WT_APP_ERROR_FIRST`, skipping one reserved codepoint in 31.
pub open spec fn spec_wt_to_h3(n: u32) -> u64 {
    (WT_APP_ERROR_FIRST + n + n / 0x1e) as u64
}

/// Whether `h` is one of the reserved (greased) codepoints `0x1f * N + 0x21`.
pub open spec fn spec_is_greased(h: u64) -> bool {
    h >= 0x21 && (h - 0x21) % 0x1f == 0
}

/// Convert a WebTransport application error code to its HTTP/3 error code.
pub fn webtransport_to_http3_error(n: u32) -> (h: u64)
    ensures
        h == spec_wt_to_h3(n),
        WT_APP_ERROR_FIRST <= h <= WT_APP_ERROR_LAST,
{
    let n = n as u64;
    assert(n / 0x1e <= 0xFFFF_FFFFu64 / 0x1e) by (nonlinear_arith)
        requires n <= 0xFFFF_FFFFu64;
    WT_APP_ERROR_FIRST + n + n / 0x1e
}

/// Convert an HTTP/3 error code back to a WebTransport application error
/// code; `None` outside the reserved range, on a greased codepoint, or
/// where the result would not fit 32 bits.
pub fn http3_to_webtransport_error(h: u64) -> (r: Option<u32>)
    ensures
        (h < WT_APP_ERROR_FIRST || h > WT_APP_ERROR_LAST) ==> r is None,
        (WT_APP_ERROR_FIRST <= h <= WT_APP_ERROR_LAST && spec_is_greased(h)) ==> r is None,
        (WT_APP_ERROR_FIRST <= h <= WT_APP_ERROR_LAST && !spec_is_greased(h)) ==> ({
            let shifted = h - WT_APP_ERROR_FIRST;
            let wt = shifted - shifted / 0x1f;
            if wt > u32::MAX {
                r is None
            } else {
                r == Some(wt as u32)
            }
        }),
{
    if h < WT_APP_ERROR_FIRST || h > WT_APP_ERROR_LAST {
        return None;
    }
    if (h - 0x21) % 0x1f == 0 {
        return None;
    }
    let shifted = h - WT_APP_ERROR_FIRST;
    let wt = shifted - shifted / 0x1f;
    if wt > 0xFFFF_FFFFu64 {
        return None;
    }
    Some(wt as u32)
}

/// Every WebTransport application error code survives the trip to its
/// HTTP/3 code and back, and its HTTP/3 code is never a greased one.
pub proof fn law_error_code_roundtrip(n: u32)
    ensures
        WT_APP_ERROR_FIRST <= spec_wt_to_h3(n) <= WT_APP_ERROR_LAST,
        !spec_is_greased(spec_wt_to_h3(n)),
        ({
            let shifted = spec_wt_to_h3(n) - WT_APP_ERROR_FIRST;
            shifted - shifted / 0x1f == n
        }),
{
    let q = n / 0x1e;
    let r = n % 0x1e;
    assert(n == 0x1e * q + r && 0 <= r < 0x1e) by (nonlinear_arith)
        requires q == n / 0x1e, r == n % 0x1e;
    assert(q <= 0xFFFF_FFFFu32 / 0x1e) by (nonlinear_arith)
        requires q == n / 0x1e, n <= 0xFFFF_FFFFu32;
    let shifted = n + q;
    assert(shifted == 0x1f * q + r);
    assert(shifted / 0x1f == q && shifted % 0x1f == r) by (nonlinear_arith)
        requires shifted == 0x1f * q + r, 0 <= r < 0x1e, q >= 0;
    let h = spec_wt_to_h3(n);
    assert(h - 0x21 == (WT_APP_ERROR_FIRST - 0x21) + shifted);
    assert((WT_APP_ERROR_FIRST - 0x21) % 0x1f == 1);
    let b = (WT_APP_ERROR_FIRST - 0x21) / 0x1f;
    assert(WT_APP_ERROR_FIRST - 0x21 == 0x1f * b + 1);
    assert((0x1f * b + 1 + 0x1f * q + r) % 0x1f == 1 + r) by (nonlinear_arith)
        requires 0 <= r < 0x1e, q >= 0, b >= 0;
}

} // verus!
