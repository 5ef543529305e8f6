//! GOAWAY, MAX_REQUEST_ID, REQUESTS_BLOCKED and UNSUBSCRIBE.
use vstd::prelude::*;
use crate::moq_protocol::codec::{
    write_prefixed_bytes, write_varint, Cursor, Decode, Encode, SpecParse, spec_encode_prefixed,
    spec_parse_bytes,
};
use crate::moq_protocol::error::{ErrorKind, Result, protocol_violation};
use crate::moq_protocol::varint::{spec_encode_varint, spec_parse_varint};

verus! {

/// Longest new-session URI a GOAWAY may carry.
pub const MAX_GOAWAY_URI_BYTES: usize = 8192;

#[derive(Debug, Clone, PartialEq, Eq)]
pub struct Goaway {
    pub new_session_uri: Vec<u8>,
}

impl View for Goaway {
    type V = Seq<u8>;

    open spec fn view(&self) -> Seq<u8> {
        self.new_session_uri@
    }
}

/// A varint length of at most 8192, then the URI bytes.
pub open spec fn spec_parse_goaway(s: Seq<u8>) -> SpecParse<Seq<u8>> {
    match spec_parse_varint(s) {
        Err(k) => Err(k),
        Ok((len, n)) => if len > 8192 {
            Err(ErrorKind::ProtocolViolation)
        } else {
            match spec_parse_bytes(s.skip(n as int), len as nat) {
                Err(k) => Err(k),
                Ok((b, m)) => Ok((b, n + m)),
            }
        },
    }
}

impl Encode for Goaway {
    open spec fn spec_encode(v: Seq<u8>) -> core::result::Result<Seq<u8>, ErrorKind> {
        spec_encode_prefixed(v)
    }

    fn encode(&self, buf: &mut Vec<u8>) -> (r: Result<()>) {
        write_prefixed_bytes(buf, self.new_session_uri.as_slice())
    }
}

impl Decode for Goaway {
    open spec fn spec_parse(s: Seq<u8>) -> SpecParse<Seq<u8>> {
        spec_parse_goaway(s)
    }

    fn decode(cursor: &mut Cursor<'_>) -> (r: Result<Self>) {
        let ghost s = cursor.rest();
        let len = match cursor.read_varint() {
            Ok(l) => l,
            Err(e) => return Err(e),
        };
        if len > 8192 {
            return Err(protocol_violation("GOAWAY URI length exceeds 8192"));
        }
        let ghost n = spec_parse_varint(s)->Ok_0.1;
        let bytes = match cursor.read_bytes(len as usize) {
            Ok(b) => b,
            Err(e) => return Err(e),
        };
        proof {
            assert(s.skip(n as int).skip(len as int) =~= s.skip((n + len) as int));
        }
        Ok(Goaway { new_session_uri: vstd::slice::slice_to_vec(bytes) })
    }
}

#[derive(Debug, Clone, PartialEq, Eq)]
pub struct MaxRequestId {
    pub max_request_id: u64,
}

impl View for MaxRequestId {
    type V = u64;

    open spec fn view(&self) -> u64 {
        self.max_request_id
    }
}

impl Encode for MaxRequestId {
    open spec fn spec_encode(v: u64) -> core::result::Result<Seq<u8>, ErrorKind> {
        spec_encode_varint(v)
    }

    fn encode(&self, buf: &mut Vec<u8>) -> (r: Result<()>) {
        write_varint(buf, self.max_request_id)
    }
}

impl Decode for MaxRequestId {
    open spec fn spec_parse(s: Seq<u8>) -> SpecParse<u64> {
        spec_parse_varint(s)
    }

    fn decode(cursor: &mut Cursor<'_>) -> (r: Result<Self>) {
        match cursor.read_varint() {
            Ok(v) => Ok(MaxRequestId { max_request_id: v }),
            Err(e) => Err(e),
        }
    }
}

#[derive(Debug, Clone, PartialEq, Eq)]
pub struct RequestsBlocked {
    pub maximum_request_id: u64,
}

impl View for RequestsBlocked {
    type V = u64;

    open spec fn view(&self) -> u64 {
        self.maximum_request_id
    }
}

impl Encode for RequestsBlocked {
    open spec fn spec_encode(v: u64) -> core::result::Result<Seq<u8>, ErrorKind> {
        spec_encode_varint(v)
    }

    fn encode(&self, buf: &mut Vec<u8>) -> (r: Result<()>) {
        write_varint(buf, self.maximum_request_id)
    }
}

impl Decode for RequestsBlocked {
    open spec fn spec_parse(s: Seq<u8>) -> SpecParse<u64> {
        spec_parse_varint(s)
    }

    fn decode(cursor: &mut Cursor<'_>) -> (r: Result<Self>) {
        match cursor.read_varint() {
            Ok(v) => Ok(RequestsBlocked { maximum_request_id: v }),
            Err(e) => Err(e),
        }
    }
}

#[derive(Debug, Clone, PartialEq, Eq)]
pub struct Unsubscribe {
    pub request_id: u64,
}

impl View for Unsubscribe {
    type V = u64;

    open spec fn view(&self) -> u64 {
        self.request_id
    }
}

impl Encode for Unsubscribe {
    open spec fn spec_encode(v: u64) -> core::result::Result<Seq<u8>, ErrorKind> {
        spec_encode_varint(v)
    }

    fn encode(&self, buf: &mut Vec<u8>) -> (r: Result<()>) {
        write_varint(buf, self.request_id)
    }
}

impl Decode for Unsubscribe {
    open spec fn spec_parse(s: Seq<u8>) -> SpecParse<u64> {
        spec_parse_varint(s)
    }

    fn decode(cursor: &mut Cursor<'_>) -> (r: Result<Self>) {
        match cursor.read_varint() {
            Ok(v) => Ok(Unsubscribe { request_id: v }),
            Err(e) => Err(e),
        }
    }
}

} // verus!
