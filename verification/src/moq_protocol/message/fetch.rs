//! FETCH, FETCH_OK, FETCH_CANCEL and TRACK_STATUS.
use vstd::prelude::*;
use crate::moq_protocol::codec::{
    write_prefixed_bytes, write_u8, write_varint, Cursor, Decode, Encode, SpecParse,
    spec_encode_prefixed, spec_parse_prefixed, spec_parse_u8,
};
use crate::moq_protocol::error::{ErrorKind, Result, protocol_violation};
use crate::moq_protocol::params::{Parameters, spec_encode_params, spec_parse_params};
use crate::moq_protocol::types::{
    decode_extensions_from_remaining, encode_extensions, KeyValuePair, KvSpec, Location,
    TrackNamespace, spec_cat, spec_encode_namespace, spec_parse_namespace, spec_encode_kvs,
    spec_parse_kvs_all, spec_kvs_view, spec_encode_location, spec_parse_location,
};
use crate::moq_protocol::varint::{spec_encode_varint, spec_parse_varint};use crate::moq_protocol::codec::{lemma_varint_parse_roundtrip, lemma_prefixed_roundtrip, lemma_skip_concat, lemma_skip_skip};
use crate::moq_protocol::params::{spec_sort_kvs, law_params_roundtrip};
use crate::moq_protocol::types::{
    law_namespace_roundtrip, law_namespace_prefix_roundtrip, law_kvs_all_roundtrip, law_reason_roundtrip,
    law_location_roundtrip, spec_decodable_namespace, spec_decodable_prefix,
};

verus! {

#[derive(Debug, Clone, PartialEq, Eq)]
pub struct TrackStatus {
    pub request_id: u64,
    pub track_namespace: TrackNamespace,
    pub track_name: Vec<u8>,
    pub parameters: Parameters,
}

/// Mathematical value of a [`TrackStatus`].
pub struct TrackStatusView {
    pub request_id: u64,
    pub track_namespace: Seq<Seq<u8>>,
    pub track_name: Seq<u8>,
    pub parameters: Seq<KvSpec>,
}

impl View for TrackStatus {
    type V = TrackStatusView;

    open spec fn view(&self) -> TrackStatusView {
        TrackStatusView {
            request_id: self.request_id,
            track_namespace: self.track_namespace@,
            track_name: self.track_name@,
            parameters: self.parameters@,
        }
    }
}

pub open spec fn spec_encode_track_status(v: TrackStatusView) -> core::result::Result<Seq<u8>, ErrorKind> {
    spec_cat(spec_cat(spec_cat(
        spec_encode_varint(v.request_id),
        spec_encode_namespace(v.track_namespace)),
        spec_encode_prefixed(v.track_name)),
        spec_encode_params(v.parameters))
}

pub open spec fn spec_parse_track_status(s: Seq<u8>) -> SpecParse<TrackStatusView> {
    match spec_parse_varint(s) {
        Err(k) => Err(k),
        Ok((request_id, n1)) => match spec_parse_namespace(s.skip(n1 as int)) {
            Err(k) => Err(k),
            Ok((track_namespace, n2)) => match spec_parse_prefixed(s.skip((n1 + n2) as int)) {
                Err(k) => Err(k),
                Ok((track_name, n3)) => match spec_parse_params(s.skip((n1 + n2 + n3) as int)) {
                    Err(k) => Err(k),
                    Ok((parameters, n4)) => Ok((TrackStatusView { request_id, track_namespace, track_name, parameters }, n1 + n2 + n3 + n4)),
                },
            },
        },
    }
}

impl Encode for TrackStatus {
    open spec fn spec_encode(v: TrackStatusView) -> core::result::Result<Seq<u8>, ErrorKind> {
        spec_encode_track_status(v)
    }

    fn encode(&self, buf: &mut Vec<u8>) -> (r: Result<()>) {
        match write_varint(buf, self.request_id) {
            Ok(()) => {},
            Err(e) => return Err(e),
        }
        match self.track_namespace.encode(buf) {
            Ok(()) => {},
            Err(e) => return Err(e),
        }
        match write_prefixed_bytes(buf, self.track_name.as_slice()) {
            Ok(()) => {},
            Err(e) => return Err(e),
        }
        match self.parameters.encode(buf) {
            Ok(()) => {},
            Err(e) => return Err(e),
        }
        assert(buf@ =~= old(buf)@ + spec_encode_track_status(self@)->Ok_0);
        Ok(())
    }
}

impl Decode for TrackStatus {
    open spec fn spec_parse(s: Seq<u8>) -> SpecParse<TrackStatusView> {
        spec_parse_track_status(s)
    }

    fn decode(cursor: &mut Cursor<'_>) -> (r: Result<Self>) {
        let ghost s = cursor.rest();
        let request_id = match cursor.read_varint() {
            Ok(v) => v,
            Err(e) => return Err(e),
        };
        let ghost n1 = spec_parse_varint(s)->Ok_0.1;
        let track_namespace = match TrackNamespace::decode(cursor) {
            Ok(v) => v,
            Err(e) => return Err(e),
        };
        let ghost n2 = spec_parse_namespace(s.skip(n1 as int))->Ok_0.1;
        assert(s.skip(n1 as int).skip(n2 as int) =~= s.skip((n1 + n2) as int));
        let track_name = match cursor.read_prefixed_bytes() {
            Ok(v) => vstd::slice::slice_to_vec(v),
            Err(e) => return Err(e),
        };
        let ghost n3 = spec_parse_prefixed(s.skip((n1 + n2) as int))->Ok_0.1;
        assert(s.skip((n1 + n2) as int).skip(n3 as int) =~= s.skip((n1 + n2 + n3) as int));
        let parameters = match Parameters::decode(cursor) {
            Ok(v) => v,
            Err(e) => return Err(e),
        };
        let ghost n4 = spec_parse_params(s.skip((n1 + n2 + n3) as int))->Ok_0.1;
        assert(s.skip((n1 + n2 + n3) as int).skip(n4 as int) =~= s.skip((n1 + n2 + n3 + n4) as int));
        Ok(TrackStatus { request_id, track_namespace, track_name, parameters })
    }
}
#[derive(Debug, Clone, PartialEq, Eq)]
pub enum FetchType {
    Standalone {
        track_namespace: TrackNamespace,
        track_name: Vec<u8>,
        start: Location,
        end: Location,
    },
    RelativeJoining {
        joining_request_id: u64,
        joining_start: u64,
    },
    AbsoluteJoining {
        joining_request_id: u64,
        joining_start: u64,
    },
}

/// Mathematical value of a [`FetchType`].
pub enum FetchTypeView {
    Standalone { track_namespace: Seq<Seq<u8>>, track_name: Seq<u8>, start: Location, end: Location },
    RelativeJoining { joining_request_id: u64, joining_start: u64 },
    AbsoluteJoining { joining_request_id: u64, joining_start: u64 },
}

impl View for FetchType {
    type V = FetchTypeView;

    open spec fn view(&self) -> FetchTypeView {
        match self {
            FetchType::Standalone { track_namespace, track_name, start, end } => FetchTypeView::Standalone {
                track_namespace: track_namespace@,
                track_name: track_name@,
                start: *start,
                end: *end,
            },
            FetchType::RelativeJoining { joining_request_id, joining_start } => FetchTypeView::RelativeJoining {
                joining_request_id: *joining_request_id,
                joining_start: *joining_start,
            },
            FetchType::AbsoluteJoining { joining_request_id, joining_start } => FetchTypeView::AbsoluteJoining {
                joining_request_id: *joining_request_id,
                joining_start: *joining_start,
            },
        }
    }
}

impl FetchTypeView {
    /// Wire value of the fetch type.
    pub open spec fn spec_type_code(self) -> u64 {
        match self {
            FetchTypeView::Standalone { .. } => 0x1,
            FetchTypeView::RelativeJoining { .. } => 0x2,
            FetchTypeView::AbsoluteJoining { .. } => 0x3,
        }
    }
}

impl FetchType {
    fn type_code(&self) -> (r: u64)
        ensures
            r == self@.spec_type_code(),
    {
        match self {
            FetchType::Standalone { .. } => 0x1,
            FetchType::RelativeJoining { .. } => 0x2,
            FetchType::AbsoluteJoining { .. } => 0x3,
        }
    }
}

/// The fields that follow the fetch type code.
pub open spec fn spec_encode_fetch_body(t: FetchTypeView) -> core::result::Result<Seq<u8>, ErrorKind> {
    match t {
        FetchTypeView::Standalone { track_namespace, track_name, start, end } => spec_cat(spec_cat(spec_cat(
            spec_encode_namespace(track_namespace),
            spec_encode_prefixed(track_name)),
            spec_encode_location(start)),
            spec_encode_location(end)),
        FetchTypeView::RelativeJoining { joining_request_id, joining_start } =>
            spec_cat(spec_encode_varint(joining_request_id), spec_encode_varint(joining_start)),
        FetchTypeView::AbsoluteJoining { joining_request_id, joining_start } =>
            spec_cat(spec_encode_varint(joining_request_id), spec_encode_varint(joining_start)),
    }
}

/// Parser of the fields that follow fetch type code `code`.
pub open spec fn spec_parse_fetch_body(s: Seq<u8>, code: u64) -> SpecParse<FetchTypeView> {
    if code == 1 {
        match spec_parse_namespace(s) {
            Err(k) => Err(k),
            Ok((track_namespace, n1)) => match spec_parse_prefixed(s.skip(n1 as int)) {
                Err(k) => Err(k),
                Ok((track_name, n2)) => match spec_parse_location(s.skip((n1 + n2) as int)) {
                    Err(k) => Err(k),
                    Ok((start, n3)) => match spec_parse_location(s.skip((n1 + n2 + n3) as int)) {
                        Err(k) => Err(k),
                        Ok((end, n4)) => Ok((
                            FetchTypeView::Standalone { track_namespace, track_name, start, end },
                            n1 + n2 + n3 + n4,
                        )),
                    },
                },
            },
        }
    } else if code == 2 || code == 3 {
        match spec_parse_varint(s) {
            Err(k) => Err(k),
            Ok((joining_request_id, n1)) => match spec_parse_varint(s.skip(n1 as int)) {
                Err(k) => Err(k),
                Ok((joining_start, n2)) => Ok((
                    if code == 2 {
                        FetchTypeView::RelativeJoining { joining_request_id, joining_start }
                    } else {
                        FetchTypeView::AbsoluteJoining { joining_request_id, joining_start }
                    },
                    n1 + n2,
                )),
            },
        }
    } else {
        Err(ErrorKind::ProtocolViolation)
    }
}

fn encode_fetch_body(t: &FetchType, buf: &mut Vec<u8>) -> (r: Result<()>)
    ensures
        match spec_encode_fetch_body(t@) {
            Ok(b) => r is Ok && final(buf)@ == old(buf)@ + b,
            Err(k) => r matches Err(e) && e.kind() == k,
        },
{
    match t {
        FetchType::Standalone { track_namespace, track_name, start, end } => {
            match track_namespace.encode(buf) {
                Ok(()) => {},
                Err(e) => return Err(e),
            }
            match write_prefixed_bytes(buf, track_name.as_slice()) {
                Ok(()) => {},
                Err(e) => return Err(e),
            }
            match start.encode(buf) {
                Ok(()) => {},
                Err(e) => return Err(e),
            }
            match end.encode(buf) {
                Ok(()) => {},
                Err(e) => return Err(e),
            }
        },
        FetchType::RelativeJoining { joining_request_id, joining_start }
        | FetchType::AbsoluteJoining { joining_request_id, joining_start } => {
            match write_varint(buf, *joining_request_id) {
                Ok(()) => {},
                Err(e) => return Err(e),
            }
            match write_varint(buf, *joining_start) {
                Ok(()) => {},
                Err(e) => return Err(e),
            }
        },
    }
    assert(buf@ =~= old(buf)@ + spec_encode_fetch_body(t@)->Ok_0);
    Ok(())
}

fn decode_fetch_body(cursor: &mut Cursor<'_>, code: u64) -> (r: Result<FetchType>)
    ensures
        final(cursor).data() == old(cursor).data(),
        match spec_parse_fetch_body(old(cursor).rest(), code) {
            Ok((v, n)) => r matches Ok(x) && x@ == v && n <= old(cursor).rest().len()
                && final(cursor).pos() == old(cursor).pos() + n
                && final(cursor).rest() == old(cursor).rest().skip(n as int),
            Err(k) => r matches Err(e) && e.kind() == k,
        },
{
    let ghost s = cursor.rest();
    if code == 1 {
        let track_namespace = match TrackNamespace::decode(cursor) {
            Ok(v) => v,
            Err(e) => return Err(e),
        };
        let ghost n1 = spec_parse_namespace(s)->Ok_0.1;
        let track_name = match cursor.read_prefixed_bytes() {
            Ok(v) => vstd::slice::slice_to_vec(v),
            Err(e) => return Err(e),
        };
        let ghost n2 = spec_parse_prefixed(s.skip(n1 as int))->Ok_0.1;
        assert(s.skip(n1 as int).skip(n2 as int) =~= s.skip((n1 + n2) as int));
        let start = match Location::decode(cursor) {
            Ok(v) => v,
            Err(e) => return Err(e),
        };
        let ghost n3 = spec_parse_location(s.skip((n1 + n2) as int))->Ok_0.1;
        assert(s.skip((n1 + n2) as int).skip(n3 as int) =~= s.skip((n1 + n2 + n3) as int));
        let end = match Location::decode(cursor) {
            Ok(v) => v,
            Err(e) => return Err(e),
        };
        let ghost n4 = spec_parse_location(s.skip((n1 + n2 + n3) as int))->Ok_0.1;
        assert(s.skip((n1 + n2 + n3) as int).skip(n4 as int) =~= s.skip((n1 + n2 + n3 + n4) as int));
        Ok(FetchType::Standalone { track_namespace, track_name, start, end })
    } else if code == 2 || code == 3 {
        let joining_request_id = match cursor.read_varint() {
            Ok(v) => v,
            Err(e) => return Err(e),
        };
        let ghost n1 = spec_parse_varint(s)->Ok_0.1;
        let joining_start = match cursor.read_varint() {
            Ok(v) => v,
            Err(e) => return Err(e),
        };
        let ghost n2 = spec_parse_varint(s.skip(n1 as int))->Ok_0.1;
        assert(s.skip(n1 as int).skip(n2 as int) =~= s.skip((n1 + n2) as int));
        if code == 2 {
            Ok(FetchType::RelativeJoining { joining_request_id, joining_start })
        } else {
            Ok(FetchType::AbsoluteJoining { joining_request_id, joining_start })
        }
    } else {
        Err(protocol_violation("invalid fetch type"))
    }
}

#[derive(Debug, Clone, PartialEq, Eq)]
pub struct Fetch {
    pub request_id: u64,
    pub fetch_type: FetchType,
    pub parameters: Parameters,
}

/// Mathematical value of a [`Fetch`].
pub struct FetchView {
    pub request_id: u64,
    pub fetch_type: FetchTypeView,
    pub parameters: Seq<KvSpec>,
}

impl View for Fetch {
    type V = FetchView;

    open spec fn view(&self) -> FetchView {
        FetchView { request_id: self.request_id, fetch_type: self.fetch_type@, parameters: self.parameters@ }
    }
}

pub open spec fn spec_encode_fetch(v: FetchView) -> core::result::Result<Seq<u8>, ErrorKind> {
    spec_cat(spec_cat(spec_cat(
        spec_encode_varint(v.request_id),
        spec_encode_varint(v.fetch_type.spec_type_code())),
        spec_encode_fetch_body(v.fetch_type)),
        spec_encode_params(v.parameters))
}

pub open spec fn spec_parse_fetch(s: Seq<u8>) -> SpecParse<FetchView> {
    match spec_parse_varint(s) {
        Err(k) => Err(k),
        Ok((request_id, n1)) => match spec_parse_varint(s.skip(n1 as int)) {
            Err(k) => Err(k),
            Ok((code, n2)) => match spec_parse_fetch_body(s.skip((n1 + n2) as int), code) {
                Err(k) => Err(k),
                Ok((fetch_type, n3)) => match spec_parse_params(s.skip((n1 + n2 + n3) as int)) {
                    Err(k) => Err(k),
                    Ok((parameters, n4)) => Ok((FetchView { request_id, fetch_type, parameters }, n1 + n2 + n3 + n4)),
                },
            },
        },
    }
}

impl Encode for Fetch {
    open spec fn spec_encode(v: FetchView) -> core::result::Result<Seq<u8>, ErrorKind> {
        spec_encode_fetch(v)
    }

    fn encode(&self, buf: &mut Vec<u8>) -> (r: Result<()>) {
        match write_varint(buf, self.request_id) {
            Ok(()) => {},
            Err(e) => return Err(e),
        }
        match write_varint(buf, self.fetch_type.type_code()) {
            Ok(()) => {},
            Err(e) => return Err(e),
        }
        match encode_fetch_body(&self.fetch_type, buf) {
            Ok(()) => {},
            Err(e) => return Err(e),
        }
        match self.parameters.encode(buf) {
            Ok(()) => {},
            Err(e) => return Err(e),
        }
        assert(buf@ =~= old(buf)@ + spec_encode_fetch(self@)->Ok_0);
        Ok(())
    }
}

impl Decode for Fetch {
    open spec fn spec_parse(s: Seq<u8>) -> SpecParse<FetchView> {
        spec_parse_fetch(s)
    }

    fn decode(cursor: &mut Cursor<'_>) -> (r: Result<Self>) {
        let ghost s = cursor.rest();
        let request_id = match cursor.read_varint() {
            Ok(v) => v,
            Err(e) => return Err(e),
        };
        let ghost n1 = spec_parse_varint(s)->Ok_0.1;
        let code = match cursor.read_varint() {
            Ok(v) => v,
            Err(e) => return Err(e),
        };
        let ghost n2 = spec_parse_varint(s.skip(n1 as int))->Ok_0.1;
        assert(s.skip(n1 as int).skip(n2 as int) =~= s.skip((n1 + n2) as int));
        let fetch_type = match decode_fetch_body(cursor, code) {
            Ok(v) => v,
            Err(e) => return Err(e),
        };
        let ghost n3 = spec_parse_fetch_body(s.skip((n1 + n2) as int), code)->Ok_0.1;
        assert(s.skip((n1 + n2) as int).skip(n3 as int) =~= s.skip((n1 + n2 + n3) as int));
        let parameters = match Parameters::decode(cursor) {
            Ok(v) => v,
            Err(e) => return Err(e),
        };
        proof {
            let n4 = spec_parse_params(s.skip((n1 + n2 + n3) as int))->Ok_0.1;
            assert(s.skip((n1 + n2 + n3) as int).skip(n4 as int) =~= s.skip((n1 + n2 + n3 + n4) as int));
        }
        Ok(Fetch { request_id, fetch_type, parameters })
    }
}

#[derive(Debug, Clone, PartialEq, Eq)]
pub struct FetchOk {
    pub request_id: u64,
    pub end_of_track: bool,
    pub end_location: Location,
    pub parameters: Parameters,
    pub track_extensions: Vec<KeyValuePair>,
}

/// Mathematical value of a [`FetchOk`].
pub struct FetchOkView {
    pub request_id: u64,
    pub end_of_track: bool,
    pub end_location: Location,
    pub parameters: Seq<KvSpec>,
    pub track_extensions: Seq<KvSpec>,
}

impl View for FetchOk {
    type V = FetchOkView;

    open spec fn view(&self) -> FetchOkView {
        FetchOkView {
            request_id: self.request_id,
            end_of_track: self.end_of_track,
            end_location: self.end_location,
            parameters: self.parameters@,
            track_extensions: spec_kvs_view(self.track_extensions@),
        }
    }
}

pub open spec fn spec_encode_fetch_ok(v: FetchOkView) -> core::result::Result<Seq<u8>, ErrorKind> {
    spec_cat(spec_cat(spec_cat(spec_cat(
        spec_encode_varint(v.request_id),
        Ok(seq![if v.end_of_track { 1u8 } else { 0u8 }])),
        spec_encode_location(v.end_location)),
        spec_encode_params(v.parameters)),
        spec_encode_kvs(v.track_extensions, 0))
}

pub open spec fn spec_parse_fetch_ok(s: Seq<u8>) -> SpecParse<FetchOkView> {
    match spec_parse_varint(s) {
        Err(k) => Err(k),
        Ok((request_id, n1)) => match spec_parse_u8(s.skip(n1 as int)) {
            Err(k) => Err(k),
            Ok((b, n2)) => if b > 1 {
                Err(ErrorKind::ProtocolViolation)
            } else {
                match spec_parse_location(s.skip((n1 + n2) as int)) {
                    Err(k) => Err(k),
                    Ok((end_location, n3)) => match spec_parse_params(s.skip((n1 + n2 + n3) as int)) {
                        Err(k) => Err(k),
                        Ok((parameters, n4)) => match spec_parse_kvs_all(s.skip((n1 + n2 + n3 + n4) as int), 0) {
                            Err(k) => Err(k),
                            Ok((track_extensions, n5)) => Ok((
                                FetchOkView { request_id, end_of_track: b == 1, end_location, parameters, track_extensions },
                                n1 + n2 + n3 + n4 + n5,
                            )),
                        },
                    },
                }
            },
        },
    }
}

impl Encode for FetchOk {
    open spec fn spec_encode(v: FetchOkView) -> core::result::Result<Seq<u8>, ErrorKind> {
        spec_encode_fetch_ok(v)
    }

    fn encode(&self, buf: &mut Vec<u8>) -> (r: Result<()>) {
        match write_varint(buf, self.request_id) {
            Ok(()) => {},
            Err(e) => return Err(e),
        }
        write_u8(buf, if self.end_of_track { 1 } else { 0 });
        match self.end_location.encode(buf) {
            Ok(()) => {},
            Err(e) => return Err(e),
        }
        match self.parameters.encode(buf) {
            Ok(()) => {},
            Err(e) => return Err(e),
        }
        match encode_extensions(buf, self.track_extensions.as_slice()) {
            Ok(()) => {},
            Err(e) => return Err(e),
        }
        assert(buf@ =~= old(buf)@ + spec_encode_fetch_ok(self@)->Ok_0);
        Ok(())
    }
}

impl Decode for FetchOk {
    open spec fn spec_parse(s: Seq<u8>) -> SpecParse<FetchOkView> {
        spec_parse_fetch_ok(s)
    }

    fn decode(cursor: &mut Cursor<'_>) -> (r: Result<Self>) {
        let ghost s = cursor.rest();
        let request_id = match cursor.read_varint() {
            Ok(v) => v,
            Err(e) => return Err(e),
        };
        let ghost n1 = spec_parse_varint(s)->Ok_0.1;
        let eot_byte = match cursor.read_u8() {
            Ok(v) => v,
            Err(e) => return Err(e),
        };
        let ghost n2 = spec_parse_u8(s.skip(n1 as int))->Ok_0.1;
        assert(s.skip(n1 as int).skip(n2 as int) =~= s.skip((n1 + n2) as int));
        let end_of_track = if eot_byte == 0 {
            false
        } else if eot_byte == 1 {
            true
        } else {
            return Err(protocol_violation("FETCH_OK End Of Track must be 0 or 1"));
        };
        let end_location = match Location::decode(cursor) {
            Ok(v) => v,
            Err(e) => return Err(e),
        };
        let ghost n3 = spec_parse_location(s.skip((n1 + n2) as int))->Ok_0.1;
        assert(s.skip((n1 + n2) as int).skip(n3 as int) =~= s.skip((n1 + n2 + n3) as int));
        let parameters = match Parameters::decode(cursor) {
            Ok(v) => v,
            Err(e) => return Err(e),
        };
        let ghost n4 = spec_parse_params(s.skip((n1 + n2 + n3) as int))->Ok_0.1;
        assert(s.skip((n1 + n2 + n3) as int).skip(n4 as int) =~= s.skip((n1 + n2 + n3 + n4) as int));
        let track_extensions = match decode_extensions_from_remaining(cursor) {
            Ok(v) => v,
            Err(e) => return Err(e),
        };
        proof {
            let n5 = spec_parse_kvs_all(s.skip((n1 + n2 + n3 + n4) as int), 0)->Ok_0.1;
            assert(s.skip((n1 + n2 + n3 + n4) as int).skip(n5 as int) =~= s.skip((n1 + n2 + n3 + n4 + n5) as int));
        }
        Ok(FetchOk { request_id, end_of_track, end_location, parameters, track_extensions })
    }
}

#[derive(Debug, Clone, PartialEq, Eq)]
pub struct FetchCancel {
    pub request_id: u64,
}

impl View for FetchCancel {
    type V = u64;

    open spec fn view(&self) -> u64 {
        self.request_id
    }
}

impl Encode for FetchCancel {
    open spec fn spec_encode(v: u64) -> core::result::Result<Seq<u8>, ErrorKind> {
        spec_encode_varint(v)
    }

    fn encode(&self, buf: &mut Vec<u8>) -> (r: Result<()>) {
        write_varint(buf, self.request_id)
    }
}

impl Decode for FetchCancel {
    open spec fn spec_parse(s: Seq<u8>) -> SpecParse<u64> {
        spec_parse_varint(s)
    }

    fn decode(cursor: &mut Cursor<'_>) -> (r: Result<Self>) {
        match cursor.read_varint() {
            Ok(v) => Ok(FetchCancel { request_id: v }),
            Err(e) => Err(e),
        }
    }
}


/// A TRACK_STATUS whose namespace the decoder accepts reads back as written, its parameters in key order.
#[verifier::spinoff_prover]
#[verifier::rlimit(80)]
pub proof fn law_track_status_roundtrip(v: TrackStatusView)
    requires
        spec_encode_track_status(v) is Ok,
        spec_decodable_namespace(v.track_namespace),
    ensures
        spec_parse_track_status(spec_encode_track_status(v)->Ok_0) == Ok::<(TrackStatusView, nat), ErrorKind>((
            TrackStatusView { request_id: v.request_id, track_namespace: v.track_namespace, track_name: v.track_name, parameters: spec_sort_kvs(v.parameters) },
            spec_encode_track_status(v)->Ok_0.len(),
        )),
{
    let e1 = spec_encode_varint(v.request_id)->Ok_0;
    let e2 = spec_encode_namespace(v.track_namespace)->Ok_0;
    let e3 = spec_encode_prefixed(v.track_name)->Ok_0;
    let e4 = spec_encode_params(v.parameters)->Ok_0;
    let s = spec_encode_track_status(v)->Ok_0;
    assert(s =~= e1 + (e2 + (e3 + e4)));
    lemma_varint_parse_roundtrip(v.request_id, e2 + (e3 + e4));
    assert(s.skip((e1.len()) as int) =~= e2 + (e3 + e4));
    law_namespace_roundtrip(v.track_namespace, e3 + e4);
    assert(s.skip((e1.len() + e2.len()) as int) =~= e3 + e4);
    lemma_prefixed_roundtrip(v.track_name, e4);
    assert(s.skip((e1.len() + e2.len() + e3.len()) as int) =~= e4);
    law_params_roundtrip(v.parameters, Seq::<u8>::empty());
    assert(e4 + Seq::<u8>::empty() =~= e4);
}

/// What the decoder accepts of a fetch type: a standalone fetch's
/// namespace must be decodable.
pub open spec fn spec_decodable_fetch_type(t: FetchTypeView) -> bool {
    match t {
        FetchTypeView::Standalone { track_namespace, .. } => spec_decodable_namespace(track_namespace),
        _ => true,
    }
}

#[verifier::rlimit(60)]
proof fn lemma_fetch_body_roundtrip(t: FetchTypeView, rest: Seq<u8>)
    requires
        spec_encode_fetch_body(t) is Ok,
        spec_decodable_fetch_type(t),
    ensures
        spec_parse_fetch_body(spec_encode_fetch_body(t)->Ok_0 + rest, t.spec_type_code())
            == Ok::<(FetchTypeView, nat), ErrorKind>((t, spec_encode_fetch_body(t)->Ok_0.len())),
{
    let s = spec_encode_fetch_body(t)->Ok_0 + rest;
    match t {
        FetchTypeView::Standalone { track_namespace, track_name, start, end } => {
            let e1 = spec_encode_namespace(track_namespace)->Ok_0;
            let e2 = spec_encode_prefixed(track_name)->Ok_0;
            let e3 = spec_encode_location(start)->Ok_0;
            let e4 = spec_encode_location(end)->Ok_0;
            assert(s =~= e1 + (e2 + (e3 + (e4 + rest))));
            law_namespace_roundtrip(track_namespace, e2 + (e3 + (e4 + rest)));
            assert(s.skip(e1.len() as int) =~= e2 + (e3 + (e4 + rest)));
            lemma_prefixed_roundtrip(track_name, e3 + (e4 + rest));
            assert(s.skip((e1.len() + e2.len()) as int) =~= e3 + (e4 + rest));
            law_location_roundtrip(start, e4 + rest);
            assert(s.skip((e1.len() + e2.len() + e3.len()) as int) =~= e4 + rest);
            law_location_roundtrip(end, rest);
        },
        FetchTypeView::RelativeJoining { joining_request_id, joining_start } => {
            let e1 = spec_encode_varint(joining_request_id)->Ok_0;
            let e2 = spec_encode_varint(joining_start)->Ok_0;
            assert(s =~= e1 + (e2 + rest));
            lemma_varint_parse_roundtrip(joining_request_id, e2 + rest);
            lemma_varint_parse_roundtrip(joining_start, rest);
        },
        FetchTypeView::AbsoluteJoining { joining_request_id, joining_start } => {
            let e1 = spec_encode_varint(joining_request_id)->Ok_0;
            let e2 = spec_encode_varint(joining_start)->Ok_0;
            assert(s =~= e1 + (e2 + rest));
            lemma_varint_parse_roundtrip(joining_request_id, e2 + rest);
            lemma_varint_parse_roundtrip(joining_start, rest);
        },
    }
}

/// A FETCH whose standalone namespace the decoder accepts reads back as
/// written, its parameters in key order.
#[verifier::spinoff_prover]
#[verifier::rlimit(80)]
pub proof fn law_fetch_roundtrip(v: FetchView)
    requires
        spec_encode_fetch(v) is Ok,
        spec_decodable_fetch_type(v.fetch_type),
    ensures
        spec_parse_fetch(spec_encode_fetch(v)->Ok_0) == Ok::<(FetchView, nat), ErrorKind>((
            FetchView { request_id: v.request_id, fetch_type: v.fetch_type, parameters: spec_sort_kvs(v.parameters) },
            spec_encode_fetch(v)->Ok_0.len(),
        )),
{
    let e1 = spec_encode_varint(v.request_id)->Ok_0;
    let e2 = spec_encode_varint(v.fetch_type.spec_type_code())->Ok_0;
    let e3 = spec_encode_fetch_body(v.fetch_type)->Ok_0;
    let e4 = spec_encode_params(v.parameters)->Ok_0;
    let s = spec_encode_fetch(v)->Ok_0;
    assert(s =~= e1 + (e2 + (e3 + e4)));
    lemma_varint_parse_roundtrip(v.request_id, e2 + (e3 + e4));
    assert(s.skip(e1.len() as int) =~= e2 + (e3 + e4));
    lemma_varint_parse_roundtrip(v.fetch_type.spec_type_code(), e3 + e4);
    assert(s.skip((e1.len() + e2.len()) as int) =~= e3 + e4);
    lemma_fetch_body_roundtrip(v.fetch_type, e4);
    assert(s.skip((e1.len() + e2.len() + e3.len()) as int) =~= e4);
    law_params_roundtrip(v.parameters, Seq::<u8>::empty());
    assert(e4 + Seq::<u8>::empty() =~= e4);
}

/// The bytes of a FETCH_OK, part by part.
proof fn lemma_fetch_ok_bytes(v: FetchOkView)
    requires
        spec_encode_fetch_ok(v) is Ok,
    ensures
        spec_encode_varint(v.request_id) is Ok,
        spec_encode_location(v.end_location) is Ok,
        spec_encode_params(v.parameters) is Ok,
        spec_encode_kvs(v.track_extensions, 0) is Ok,
        spec_encode_fetch_ok(v)->Ok_0 == spec_encode_varint(v.request_id)->Ok_0
            + (seq![if v.end_of_track { 1u8 } else { 0u8 }] + (spec_encode_location(v.end_location)->Ok_0
            + (spec_encode_params(v.parameters)->Ok_0 + spec_encode_kvs(v.track_extensions, 0)->Ok_0))),
{
    let e1 = spec_encode_varint(v.request_id)->Ok_0;
    let e2 = seq![if v.end_of_track { 1u8 } else { 0u8 }];
    let e3 = spec_encode_location(v.end_location)->Ok_0;
    let e4 = spec_encode_params(v.parameters)->Ok_0;
    let e5 = spec_encode_kvs(v.track_extensions, 0)->Ok_0;
    assert(spec_encode_fetch_ok(v)->Ok_0 =~= e1 + (e2 + (e3 + (e4 + e5))));
}

/// Reading a FETCH_OK from the readings of its parts.
proof fn lemma_parse_fetch_ok_parts(
    s: Seq<u8>,
    request_id: u64,
    n1: nat,
    b: u8,
    end_location: Location,
    n3: nat,
    parameters: Seq<KvSpec>,
    n4: nat,
    track_extensions: Seq<KvSpec>,
    n5: nat,
)
    requires
        spec_parse_varint(s) == Ok::<(u64, nat), ErrorKind>((request_id, n1)),
        spec_parse_u8(s.skip(n1 as int)) == Ok::<(u8, nat), ErrorKind>((b, 1)),
        b <= 1,
        spec_parse_location(s.skip((n1 + 1) as int)) == Ok::<(Location, nat), ErrorKind>((end_location, n3)),
        spec_parse_params(s.skip((n1 + 1 + n3) as int)) == Ok::<(Seq<KvSpec>, nat), ErrorKind>((parameters, n4)),
        spec_parse_kvs_all(s.skip((n1 + 1 + n3 + n4) as int), 0) == Ok::<(Seq<KvSpec>, nat), ErrorKind>((track_extensions, n5)),
    ensures
        spec_parse_fetch_ok(s) == Ok::<(FetchOkView, nat), ErrorKind>((
            FetchOkView { request_id, end_of_track: b == 1, end_location, parameters, track_extensions },
            n1 + 1 + n3 + n4 + n5,
        )),
{
}

/// A FETCH_OK reads back as written, its parameters in key order.
#[verifier::spinoff_prover]
#[verifier::rlimit(100)]
pub proof fn law_fetch_ok_roundtrip(v: FetchOkView)
    requires
        spec_encode_fetch_ok(v) is Ok,
    ensures
        spec_parse_fetch_ok(spec_encode_fetch_ok(v)->Ok_0) == Ok::<(FetchOkView, nat), ErrorKind>((
            FetchOkView {
                request_id: v.request_id,
                end_of_track: v.end_of_track,
                end_location: v.end_location,
                parameters: spec_sort_kvs(v.parameters),
                track_extensions: v.track_extensions,
            },
            spec_encode_fetch_ok(v)->Ok_0.len(),
        )),
{
    let e1 = spec_encode_varint(v.request_id)->Ok_0;
    let b: u8 = if v.end_of_track { 1u8 } else { 0u8 };
    let e2 = seq![b];
    let e3 = spec_encode_location(v.end_location)->Ok_0;
    let e4 = spec_encode_params(v.parameters)->Ok_0;
    let e5 = spec_encode_kvs(v.track_extensions, 0)->Ok_0;
    let s = spec_encode_fetch_ok(v)->Ok_0;
    let t3 = e4 + e5;
    let t2 = e3 + t3;
    let t1 = e2 + t2;
    assert(s =~= e1 + t1) by {
        lemma_fetch_ok_bytes(v);
    }
    assert(spec_parse_varint(s) == Ok::<(u64, nat), ErrorKind>((v.request_id, e1.len()))
        && s.skip(e1.len() as int) == t1) by {
        lemma_varint_parse_roundtrip(v.request_id, t1);
    }
    assert(spec_parse_u8(t1) == Ok::<(u8, nat), ErrorKind>((b, 1)));
    assert(t1.skip(1) =~= t2);
    assert(spec_parse_location(t2) == Ok::<(Location, nat), ErrorKind>((v.end_location, e3.len()))
        && t2.skip(e3.len() as int) == t3) by {
        law_location_roundtrip(v.end_location, t3);
        lemma_skip_concat(e3, t3);
    }
    assert(spec_parse_params(t3) == Ok::<(Seq<KvSpec>, nat), ErrorKind>((spec_sort_kvs(v.parameters), e4.len()))
        && t3.skip(e4.len() as int) == e5) by {
        law_params_roundtrip(v.parameters, e5);
        lemma_skip_concat(e4, e5);
    }
    assert(spec_parse_kvs_all(e5, 0) == Ok::<(Seq<KvSpec>, nat), ErrorKind>((v.track_extensions, e5.len()))) by {
        law_kvs_all_roundtrip(v.track_extensions, 0);
    }
    assert(s.skip((e1.len() + 1) as int) =~= t2);
    assert(s.skip((e1.len() + 1 + e3.len()) as int) =~= t3);
    assert(s.skip((e1.len() + 1 + e3.len() + e4.len()) as int) =~= e5);
    assert((b == 1) == v.end_of_track);
    assert(s.len() == e1.len() + 1 + e3.len() + e4.len() + e5.len());
    lemma_parse_fetch_ok_parts(s, v.request_id, e1.len(), b, v.end_location, e3.len(),
        spec_sort_kvs(v.parameters), e4.len(), v.track_extensions, e5.len());
}

} // verus!
