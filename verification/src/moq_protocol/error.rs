//! Error types of the MoQ protocol layer and the wire values of the
//! session, request and publish-done error codes.
use vstd::prelude::*;
use crate::numeral::{format_hex, format_u64, joined, spec_decimal, spec_hex};

verus! {

pub type Result<T> = core::result::Result<T, Error>;

/// Errors raised while encoding or decoding MoQ messages.
#[derive(Debug, Clone, PartialEq, Eq)]
pub enum Error {
    BufferTooShort,
    VarintOverflow,
    MessageTooLong,
    UnknownMessageType(u64),
    ProtocolViolation(String),
    InvalidTrackNamespace(String),
    ReasonPhraseTooLong(usize),
    InvalidFilterType(u64),
    InvalidParameter(String),
    KeyValueFormattingError(String),
    InvalidAliasType(u64),
    DuplicateParameter(u64),
    InvalidValue(String),
}

/// Which rule a key-value pair broke when it could not be encoded.
#[derive(Debug, Clone, Copy, PartialEq, Eq)]
pub enum KvFault {
    /// Its type is below the type of the pair before it.
    Decreasing,
    /// A varint value under an odd type.
    VarintNeedsEven,
    /// A byte-string value under an even type.
    BytesNeedOdd,
    /// A byte-string value longer than 65535 bytes.
    TooLong,
    /// A text this library does not write.
    Other,
}

/// The rule a key-value formatting error's text names.
#[verifier::opaque]
pub open spec fn spec_kv_fault(s: Seq<char>) -> KvFault {
    if s == "key-value types must be non-decreasing"@ {
        KvFault::Decreasing
    } else if s == "varint value requires even type"@ {
        KvFault::VarintNeedsEven
    } else if s == "bytes value requires odd type"@ {
        KvFault::BytesNeedOdd
    } else if s == "value length exceeds 65535"@ {
        KvFault::TooLong
    } else {
        KvFault::Other
    }
}

/// What an [`Error`] says, without its free-form text: contracts speak of
/// this, so that the wording of a message is left open. A key-value
/// formatting error keeps the rule its text names, so that the error an
/// encoder gives is pinned down in full.
#[derive(Debug, Clone, Copy, PartialEq, Eq)]
pub enum ErrorKind {
    BufferTooShort,
    VarintOverflow,
    MessageTooLong,
    UnknownMessageType(u64),
    ProtocolViolation,
    InvalidTrackNamespace,
    ReasonPhraseTooLong(usize),
    InvalidFilterType(u64),
    InvalidParameter,
    KeyValueFormattingError(KvFault),
    InvalidAliasType(u64),
    DuplicateParameter(u64),
    InvalidValue,
}

impl Error {
    pub open spec fn kind(&self) -> ErrorKind {
        match self {
            Error::BufferTooShort => ErrorKind::BufferTooShort,
            Error::VarintOverflow => ErrorKind::VarintOverflow,
            Error::MessageTooLong => ErrorKind::MessageTooLong,
            Error::UnknownMessageType(t) => ErrorKind::UnknownMessageType(*t),
            Error::ProtocolViolation(_) => ErrorKind::ProtocolViolation,
            Error::InvalidTrackNamespace(_) => ErrorKind::InvalidTrackNamespace,
            Error::ReasonPhraseTooLong(n) => ErrorKind::ReasonPhraseTooLong(*n),
            Error::InvalidFilterType(t) => ErrorKind::InvalidFilterType(*t),
            Error::InvalidParameter(_) => ErrorKind::InvalidParameter,
            Error::KeyValueFormattingError(s) => ErrorKind::KeyValueFormattingError(spec_kv_fault(s@)),
            Error::InvalidAliasType(t) => ErrorKind::InvalidAliasType(*t),
            Error::DuplicateParameter(t) => ErrorKind::DuplicateParameter(*t),
            Error::InvalidValue(_) => ErrorKind::InvalidValue,
        }
    }

    /// What [`Error::message`] says: the text its `Display` shows.
    pub open spec fn spec_message(&self) -> Seq<char> {
        match self {
            Error::BufferTooShort => "buffer too short"@,
            Error::VarintOverflow => "varint exceeds maximum value (2^62 - 1)"@,
            Error::MessageTooLong => "message payload exceeds maximum length (2^16 - 1 bytes)"@,
            Error::UnknownMessageType(t) => "unknown message type: "@ + spec_hex(*t as nat),
            Error::ProtocolViolation(s) => "protocol violation: "@ + s@,
            Error::InvalidTrackNamespace(s) => "invalid track namespace: "@ + s@,
            Error::ReasonPhraseTooLong(n) => "invalid reason phrase: length "@ + spec_decimal(*n as nat)
                + " exceeds maximum 1024"@,
            Error::InvalidFilterType(t) => "invalid filter type: "@ + spec_hex(*t as nat),
            Error::InvalidParameter(s) => "invalid parameter: "@ + s@,
            Error::KeyValueFormattingError(s) => "key-value formatting error: "@ + s@,
            Error::InvalidAliasType(t) => "invalid token alias type: "@ + spec_hex(*t as nat),
            Error::DuplicateParameter(t) => "duplicate parameter type: "@ + spec_hex(*t as nat),
            Error::InvalidValue(s) => "invalid value: "@ + s@,
        }
    }

    /// Human-readable description of the error.
    pub fn message(&self) -> (r: String)
        ensures
            r@ == self.spec_message(),
    {
        match self {
            Error::BufferTooShort => "buffer too short".to_owned(),
            Error::VarintOverflow => "varint exceeds maximum value (2^62 - 1)".to_owned(),
            Error::MessageTooLong => "message payload exceeds maximum length (2^16 - 1 bytes)".to_owned(),
            Error::UnknownMessageType(t) => joined("unknown message type: ", format_hex(*t).as_str()),
            Error::ProtocolViolation(s) => joined("protocol violation: ", s.as_str()),
            Error::InvalidTrackNamespace(s) => joined("invalid track namespace: ", s.as_str()),
            Error::ReasonPhraseTooLong(n) => {
                let head = joined("invalid reason phrase: length ", format_u64(*n as u64).as_str());
                joined(head.as_str(), " exceeds maximum 1024")
            },
            Error::InvalidFilterType(t) => joined("invalid filter type: ", format_hex(*t).as_str()),
            Error::InvalidParameter(s) => joined("invalid parameter: ", s.as_str()),
            Error::KeyValueFormattingError(s) => joined("key-value formatting error: ", s.as_str()),
            Error::InvalidAliasType(t) => joined("invalid token alias type: ", format_hex(*t).as_str()),
            Error::DuplicateParameter(t) => joined("duplicate parameter type: ", format_hex(*t).as_str()),
            Error::InvalidValue(s) => joined("invalid value: ", s.as_str()),
        }
    }
}

/// Builds a protocol-violation error with the given text.
pub fn protocol_violation(msg: &str) -> (e: Error)
    ensures
        e.kind() == ErrorKind::ProtocolViolation,
        e matches Error::ProtocolViolation(s) && s@ == msg@,
{
    Error::ProtocolViolation(msg.to_owned())
}

/// Builds the key-value formatting error for a broken rule, with the
/// text that names it.
pub fn kv_formatting_error(fault: KvFault) -> (e: Error)
    requires
        fault != KvFault::Other,
    ensures
        e.kind() == ErrorKind::KeyValueFormattingError(fault),
{
    proof {
        reveal_strlit("key-value types must be non-decreasing");
        reveal_strlit("varint value requires even type");
        reveal_strlit("bytes value requires odd type");
        reveal_strlit("value length exceeds 65535");
    }
    let text = match fault {
        KvFault::Decreasing => "key-value types must be non-decreasing",
        KvFault::VarintNeedsEven => "varint value requires even type",
        KvFault::BytesNeedOdd => "bytes value requires odd type",
        _ => "value length exceeds 65535",
    };
    let s = text.to_owned();
    assert(s@ == text@);
    assert("key-value types must be non-decreasing"@.len() == 38);
    assert("varint value requires even type"@.len() == 31);
    assert("bytes value requires odd type"@.len() == 29);
    assert("value length exceeds 65535"@.len() == 26);
    assert(spec_kv_fault(s@) == fault) by {
        reveal(spec_kv_fault);
    }
    Error::KeyValueFormattingError(s)
}

/// Session termination error codes.
#[derive(Debug, Clone, Copy, PartialEq, Eq)]
pub enum SessionError {
    NoError,
    InternalError,
    Unauthorized,
    ProtocolViolation,
    InvalidRequestId,
    DuplicateTrackAlias,
    KeyValueFormattingError,
    TooManyRequests,
    InvalidPath,
    MalformedPath,
    GoawayTimeout,
    ControlMessageTimeout,
    DataStreamTimeout,
    AuthTokenCacheOverflow,
    DuplicateAuthTokenAlias,
    VersionNegotiationFailed,
    MalformedAuthToken,
    UnknownAuthTokenAlias,
    ExpiredAuthToken,
    InvalidAuthority,
    MalformedAuthority,
}

impl SessionError {
    /// Wire value of the code.
    pub open spec fn spec_code(self) -> u64 {
        match self {
            SessionError::NoError => 0x0,
            SessionError::InternalError => 0x1,
            SessionError::Unauthorized => 0x2,
            SessionError::ProtocolViolation => 0x3,
            SessionError::InvalidRequestId => 0x4,
            SessionError::DuplicateTrackAlias => 0x5,
            SessionError::KeyValueFormattingError => 0x6,
            SessionError::TooManyRequests => 0x7,
            SessionError::InvalidPath => 0x8,
            SessionError::MalformedPath => 0x9,
            SessionError::GoawayTimeout => 0x10,
            SessionError::ControlMessageTimeout => 0x11,
            SessionError::DataStreamTimeout => 0x12,
            SessionError::AuthTokenCacheOverflow => 0x13,
            SessionError::DuplicateAuthTokenAlias => 0x14,
            SessionError::VersionNegotiationFailed => 0x15,
            SessionError::MalformedAuthToken => 0x16,
            SessionError::UnknownAuthTokenAlias => 0x17,
            SessionError::ExpiredAuthToken => 0x18,
            SessionError::InvalidAuthority => 0x19,
            SessionError::MalformedAuthority => 0x1A,
        }
    }

    pub fn as_u64(self) -> (r: u64)
        ensures
            r == self.spec_code(),
    {
        match self {
            SessionError::NoError => 0x0,
            SessionError::InternalError => 0x1,
            SessionError::Unauthorized => 0x2,
            SessionError::ProtocolViolation => 0x3,
            SessionError::InvalidRequestId => 0x4,
            SessionError::DuplicateTrackAlias => 0x5,
            SessionError::KeyValueFormattingError => 0x6,
            SessionError::TooManyRequests => 0x7,
            SessionError::InvalidPath => 0x8,
            SessionError::MalformedPath => 0x9,
            SessionError::GoawayTimeout => 0x10,
            SessionError::ControlMessageTimeout => 0x11,
            SessionError::DataStreamTimeout => 0x12,
            SessionError::AuthTokenCacheOverflow => 0x13,
            SessionError::DuplicateAuthTokenAlias => 0x14,
            SessionError::VersionNegotiationFailed => 0x15,
            SessionError::MalformedAuthToken => 0x16,
            SessionError::UnknownAuthTokenAlias => 0x17,
            SessionError::ExpiredAuthToken => 0x18,
            SessionError::InvalidAuthority => 0x19,
            SessionError::MalformedAuthority => 0x1A,
        }
    }
}

/// Request error codes carried by REQUEST_ERROR.
#[derive(Debug, Clone, Copy, PartialEq, Eq)]
pub enum RequestErrorCode {
    InternalError,
    Unauthorized,
    Timeout,
    NotSupported,
    MalformedAuthToken,
    ExpiredAuthToken,
    DoesNotExist,
    InvalidRange,
    MalformedTrack,
    Uninterested,
    PrefixOverlap,
    InvalidJoiningRequestId,
    DuplicateSubscription,
}

impl RequestErrorCode {
    pub open spec fn spec_code(self) -> u64 {
        match self {
            RequestErrorCode::InternalError => 0x0,
            RequestErrorCode::Unauthorized => 0x1,
            RequestErrorCode::Timeout => 0x2,
            RequestErrorCode::NotSupported => 0x3,
            RequestErrorCode::MalformedAuthToken => 0x4,
            RequestErrorCode::ExpiredAuthToken => 0x5,
            RequestErrorCode::DoesNotExist => 0x10,
            RequestErrorCode::InvalidRange => 0x11,
            RequestErrorCode::MalformedTrack => 0x12,
            RequestErrorCode::DuplicateSubscription => 0x19,
            RequestErrorCode::Uninterested => 0x20,
            RequestErrorCode::PrefixOverlap => 0x30,
            RequestErrorCode::InvalidJoiningRequestId => 0x32,
        }
    }

    pub fn as_u64(self) -> (r: u64)
        ensures
            r == self.spec_code(),
    {
        match self {
            RequestErrorCode::InternalError => 0x0,
            RequestErrorCode::Unauthorized => 0x1,
            RequestErrorCode::Timeout => 0x2,
            RequestErrorCode::NotSupported => 0x3,
            RequestErrorCode::MalformedAuthToken => 0x4,
            RequestErrorCode::ExpiredAuthToken => 0x5,
            RequestErrorCode::DoesNotExist => 0x10,
            RequestErrorCode::InvalidRange => 0x11,
            RequestErrorCode::MalformedTrack => 0x12,
            RequestErrorCode::DuplicateSubscription => 0x19,
            RequestErrorCode::Uninterested => 0x20,
            RequestErrorCode::PrefixOverlap => 0x30,
            RequestErrorCode::InvalidJoiningRequestId => 0x32,
        }
    }

    /// The code whose wire value is `v`, if there is one.
    pub fn from_u64(v: u64) -> (r: Option<Self>)
        ensures
            r matches Some(c) ==> c.spec_code() == v,
            r is None ==> forall|c: RequestErrorCode| c.spec_code() != v,
    {
        match v {
            0x0 => Some(RequestErrorCode::InternalError),
            0x1 => Some(RequestErrorCode::Unauthorized),
            0x2 => Some(RequestErrorCode::Timeout),
            0x3 => Some(RequestErrorCode::NotSupported),
            0x4 => Some(RequestErrorCode::MalformedAuthToken),
            0x5 => Some(RequestErrorCode::ExpiredAuthToken),
            0x10 => Some(RequestErrorCode::DoesNotExist),
            0x11 => Some(RequestErrorCode::InvalidRange),
            0x12 => Some(RequestErrorCode::MalformedTrack),
            0x19 => Some(RequestErrorCode::DuplicateSubscription),
            0x20 => Some(RequestErrorCode::Uninterested),
            0x30 => Some(RequestErrorCode::PrefixOverlap),
            0x32 => Some(RequestErrorCode::InvalidJoiningRequestId),
            _ => None,
        }
    }
}

/// Wire values of every request error code are distinct, so a code
/// survives the trip to the wire and back.
pub proof fn law_request_error_code_roundtrip(c: RequestErrorCode)
    ensures
        forall|d: RequestErrorCode| d.spec_code() == c.spec_code() ==> d == c,
{
}

/// Status codes of PUBLISH_DONE.
#[derive(Debug, Clone, Copy, PartialEq, Eq)]
pub enum PublishDoneStatus {
    InternalError,
    Unauthorized,
    TrackEnded,
    SubscriptionEnded,
    GoingAway,
    Expired,
    TooFarBehind,
    UpdateFailed,
    MalformedTrack,
}

impl PublishDoneStatus {
    pub open spec fn spec_code(self) -> u64 {
        match self {
            PublishDoneStatus::InternalError => 0x0,
            PublishDoneStatus::Unauthorized => 0x1,
            PublishDoneStatus::TrackEnded => 0x2,
            PublishDoneStatus::SubscriptionEnded => 0x3,
            PublishDoneStatus::GoingAway => 0x4,
            PublishDoneStatus::Expired => 0x5,
            PublishDoneStatus::TooFarBehind => 0x6,
            PublishDoneStatus::UpdateFailed => 0x8,
            PublishDoneStatus::MalformedTrack => 0x12,
        }
    }

    pub fn as_u64(self) -> (r: u64)
        ensures
            r == self.spec_code(),
    {
        match self {
            PublishDoneStatus::InternalError => 0x0,
            PublishDoneStatus::Unauthorized => 0x1,
            PublishDoneStatus::TrackEnded => 0x2,
            PublishDoneStatus::SubscriptionEnded => 0x3,
            PublishDoneStatus::GoingAway => 0x4,
            PublishDoneStatus::Expired => 0x5,
            PublishDoneStatus::TooFarBehind => 0x6,
            PublishDoneStatus::UpdateFailed => 0x8,
            PublishDoneStatus::MalformedTrack => 0x12,
        }
    }

    pub fn from_u64(v: u64) -> (r: Option<Self>)
        ensures
            r matches Some(c) ==> c.spec_code() == v,
            r is None ==> forall|c: PublishDoneStatus| c.spec_code() != v,
    {
        match v {
            0x0 => Some(PublishDoneStatus::InternalError),
            0x1 => Some(PublishDoneStatus::Unauthorized),
            0x2 => Some(PublishDoneStatus::TrackEnded),
            0x3 => Some(PublishDoneStatus::SubscriptionEnded),
            0x4 => Some(PublishDoneStatus::GoingAway),
            0x5 => Some(PublishDoneStatus::Expired),
            0x6 => Some(PublishDoneStatus::TooFarBehind),
            0x8 => Some(PublishDoneStatus::UpdateFailed),
            0x12 => Some(PublishDoneStatus::MalformedTrack),
            _ => None,
        }
    }
}

/// Wire values of the publish-done status codes are distinct.
pub proof fn law_publish_done_status_roundtrip(c: PublishDoneStatus)
    ensures
        forall|d: PublishDoneStatus| d.spec_code() == c.spec_code() ==> d == c,
{
}

/// Error conditions of the protocol.
#[derive(Debug, Clone, Copy, PartialEq, Eq)]
pub enum MoqError {
    ProtocolViolation,
    DuplicateAuthTokenAlias,
    UnknownAuthTokenAlias,
    MalformedAuthToken,
    TooFarBehind,
    KeyValueFormattingError,
}

/// Termination error codes in wire order.
#[derive(Debug, Clone, Copy, PartialEq, Eq)]
pub enum TerminationErrorCodes {
    NoError,
    InternalError,
    Unauthorized,
    ProtocolViolation,
    InvalidRequestId,
    DuplicateTrackAlias,
    KeyValueFormattingError,
    TooManyRequests,
    InValidPath,
    MalformedPath,
    GoawayTimeout,
    ControlMessageTimeout,
    DataStreamTimeout,
    AuthTokenCacheOverflow,
    DuplicateAuthTokenAlias,
    VersionNegotiationFailed,
    MalformedAuthToken,
    UnknownAuthTokenAlias,
    ExpiredAuthToken,
    InvalidAuthority,
    MalformedAuthority,
}

} // verus!
