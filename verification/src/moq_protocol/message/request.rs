//! REQUEST_OK, REQUEST_ERROR and REQUEST_UPDATE.
use vstd::prelude::*;
use crate::moq_protocol::codec::{write_varint, Cursor, Decode, Encode, SpecParse};
use crate::moq_protocol::error::{ErrorKind, Result};
use crate::moq_protocol::params::{Parameters, spec_encode_params, spec_parse_params};
use crate::moq_protocol::types::{
    KvSpec, ReasonPhrase, spec_cat, spec_encode_reason, spec_parse_reason,
};
use crate::moq_protocol::varint::{spec_encode_varint, spec_parse_varint};use crate::moq_protocol::codec::{lemma_varint_parse_roundtrip, lemma_prefixed_roundtrip};
use crate::moq_protocol::params::{spec_sort_kvs, law_params_roundtrip};
use crate::moq_protocol::types::{
    law_namespace_roundtrip, law_namespace_prefix_roundtrip, law_kvs_all_roundtrip, law_reason_roundtrip,
    law_location_roundtrip, spec_decodable_namespace, spec_decodable_prefix,
};

verus! {

#[derive(Debug, Clone, PartialEq, Eq)]
pub struct RequestOk {
    pub request_id: u64,
    pub parameters: Parameters,
}

/// Mathematical value of a [`RequestOk`].
pub struct RequestOkView {
    pub request_id: u64,
    pub parameters: Seq<KvSpec>,
}

impl View for RequestOk {
    type V = RequestOkView;

    open spec fn view(&self) -> RequestOkView {
        RequestOkView {
            request_id: self.request_id,
            parameters: self.parameters@,
        }
    }
}

pub open spec fn spec_encode_request_ok(v: RequestOkView) -> core::result::Result<Seq<u8>, ErrorKind> {
    spec_cat(spec_encode_varint(v.request_id), spec_encode_params(v.parameters))
}

pub open spec fn spec_parse_request_ok(s: Seq<u8>) -> SpecParse<RequestOkView> {
    match spec_parse_varint(s) {
        Err(k) => Err(k),
        Ok((request_id, n1)) => match spec_parse_params(s.skip(n1 as int)) {
            Err(k) => Err(k),
            Ok((parameters, n2)) => Ok((RequestOkView { request_id, parameters }, n1 + n2)),
        },
    }
}

impl Encode for RequestOk {
    open spec fn spec_encode(v: RequestOkView) -> core::result::Result<Seq<u8>, ErrorKind> {
        spec_encode_request_ok(v)
    }

    fn encode(&self, buf: &mut Vec<u8>) -> (r: Result<()>) {
        match write_varint(buf, self.request_id) {
            Ok(()) => {},
            Err(e) => return Err(e),
        }
        match self.parameters.encode(buf) {
            Ok(()) => {},
            Err(e) => return Err(e),
        }
        assert(buf@ =~= old(buf)@ + spec_encode_request_ok(self@)->Ok_0);
        Ok(())
    }
}

impl Decode for RequestOk {
    open spec fn spec_parse(s: Seq<u8>) -> SpecParse<RequestOkView> {
        spec_parse_request_ok(s)
    }

    fn decode(cursor: &mut Cursor<'_>) -> (r: Result<Self>) {
        let ghost s = cursor.rest();
        let request_id = match cursor.read_varint() {
            Ok(v) => v,
            Err(e) => return Err(e),
        };
        let ghost n1 = spec_parse_varint(s)->Ok_0.1;
        let parameters = match Parameters::decode(cursor) {
            Ok(v) => v,
            Err(e) => return Err(e),
        };
        let ghost n2 = spec_parse_params(s.skip(n1 as int))->Ok_0.1;
        assert(s.skip(n1 as int).skip(n2 as int) =~= s.skip((n1 + n2) as int));
        Ok(RequestOk { request_id, parameters })
    }
}

#[derive(Debug, Clone, PartialEq, Eq)]
pub struct RequestErrorMsg {
    pub request_id: u64,
    pub error_code: u64,
    pub retry_interval: u64,
    pub error_reason: ReasonPhrase,
}

/// Mathematical value of a [`RequestErrorMsg`].
pub struct RequestErrorMsgView {
    pub request_id: u64,
    pub error_code: u64,
    pub retry_interval: u64,
    pub error_reason: Seq<char>,
}

impl View for RequestErrorMsg {
    type V = RequestErrorMsgView;

    open spec fn view(&self) -> RequestErrorMsgView {
        RequestErrorMsgView {
            request_id: self.request_id,
            error_code: self.error_code,
            retry_interval: self.retry_interval,
            error_reason: self.error_reason@,
        }
    }
}

pub open spec fn spec_encode_request_error(v: RequestErrorMsgView) -> core::result::Result<Seq<u8>, ErrorKind> {
    spec_cat(spec_cat(spec_cat(
        spec_encode_varint(v.request_id),
        spec_encode_varint(v.error_code)),
        spec_encode_varint(v.retry_interval)),
        spec_encode_reason(v.error_reason))
}

pub open spec fn spec_parse_request_error(s: Seq<u8>) -> SpecParse<RequestErrorMsgView> {
    match spec_parse_varint(s) {
        Err(k) => Err(k),
        Ok((request_id, n1)) => match spec_parse_varint(s.skip(n1 as int)) {
            Err(k) => Err(k),
            Ok((error_code, n2)) => match spec_parse_varint(s.skip((n1 + n2) as int)) {
                Err(k) => Err(k),
                Ok((retry_interval, n3)) => match spec_parse_reason(s.skip((n1 + n2 + n3) as int)) {
                    Err(k) => Err(k),
                    Ok((error_reason, n4)) => Ok((RequestErrorMsgView { request_id, error_code, retry_interval, error_reason }, n1 + n2 + n3 + n4)),
                },
            },
        },
    }
}

impl Encode for RequestErrorMsg {
    open spec fn spec_encode(v: RequestErrorMsgView) -> core::result::Result<Seq<u8>, ErrorKind> {
        spec_encode_request_error(v)
    }

    fn encode(&self, buf: &mut Vec<u8>) -> (r: Result<()>) {
        match write_varint(buf, self.request_id) {
            Ok(()) => {},
            Err(e) => return Err(e),
        }
        match write_varint(buf, self.error_code) {
            Ok(()) => {},
            Err(e) => return Err(e),
        }
        match write_varint(buf, self.retry_interval) {
            Ok(()) => {},
            Err(e) => return Err(e),
        }
        match self.error_reason.encode(buf) {
            Ok(()) => {},
            Err(e) => return Err(e),
        }
        assert(buf@ =~= old(buf)@ + spec_encode_request_error(self@)->Ok_0);
        Ok(())
    }
}

impl Decode for RequestErrorMsg {
    open spec fn spec_parse(s: Seq<u8>) -> SpecParse<RequestErrorMsgView> {
        spec_parse_request_error(s)
    }

    fn decode(cursor: &mut Cursor<'_>) -> (r: Result<Self>) {
        let ghost s = cursor.rest();
        let request_id = match cursor.read_varint() {
            Ok(v) => v,
            Err(e) => return Err(e),
        };
        let ghost n1 = spec_parse_varint(s)->Ok_0.1;
        let error_code = match cursor.read_varint() {
            Ok(v) => v,
            Err(e) => return Err(e),
        };
        let ghost n2 = spec_parse_varint(s.skip(n1 as int))->Ok_0.1;
        assert(s.skip(n1 as int).skip(n2 as int) =~= s.skip((n1 + n2) as int));
        let retry_interval = match cursor.read_varint() {
            Ok(v) => v,
            Err(e) => return Err(e),
        };
        let ghost n3 = spec_parse_varint(s.skip((n1 + n2) as int))->Ok_0.1;
        assert(s.skip((n1 + n2) as int).skip(n3 as int) =~= s.skip((n1 + n2 + n3) as int));
        let error_reason = match ReasonPhrase::decode(cursor) {
            Ok(v) => v,
            Err(e) => return Err(e),
        };
        let ghost n4 = spec_parse_reason(s.skip((n1 + n2 + n3) as int))->Ok_0.1;
        assert(s.skip((n1 + n2 + n3) as int).skip(n4 as int) =~= s.skip((n1 + n2 + n3 + n4) as int));
        Ok(RequestErrorMsg { request_id, error_code, retry_interval, error_reason })
    }
}

#[derive(Debug, Clone, PartialEq, Eq)]
pub struct RequestUpdate {
    pub request_id: u64,
    pub existing_request_id: u64,
    pub parameters: Parameters,
}

/// Mathematical value of a [`RequestUpdate`].
pub struct RequestUpdateView {
    pub request_id: u64,
    pub existing_request_id: u64,
    pub parameters: Seq<KvSpec>,
}

impl View for RequestUpdate {
    type V = RequestUpdateView;

    open spec fn view(&self) -> RequestUpdateView {
        RequestUpdateView {
            request_id: self.request_id,
            existing_request_id: self.existing_request_id,
            parameters: self.parameters@,
        }
    }
}

pub open spec fn spec_encode_request_update(v: RequestUpdateView) -> core::result::Result<Seq<u8>, ErrorKind> {
    spec_cat(spec_cat(
        spec_encode_varint(v.request_id),
        spec_encode_varint(v.existing_request_id)),
        spec_encode_params(v.parameters))
}

pub open spec fn spec_parse_request_update(s: Seq<u8>) -> SpecParse<RequestUpdateView> {
    match spec_parse_varint(s) {
        Err(k) => Err(k),
        Ok((request_id, n1)) => match spec_parse_varint(s.skip(n1 as int)) {
            Err(k) => Err(k),
            Ok((existing_request_id, n2)) => match spec_parse_params(s.skip((n1 + n2) as int)) {
                Err(k) => Err(k),
                Ok((parameters, n3)) => Ok((RequestUpdateView { request_id, existing_request_id, parameters }, n1 + n2 + n3)),
            },
        },
    }
}

impl Encode for RequestUpdate {
    open spec fn spec_encode(v: RequestUpdateView) -> core::result::Result<Seq<u8>, ErrorKind> {
        spec_encode_request_update(v)
    }

    fn encode(&self, buf: &mut Vec<u8>) -> (r: Result<()>) {
        match write_varint(buf, self.request_id) {
            Ok(()) => {},
            Err(e) => return Err(e),
        }
        match write_varint(buf, self.existing_request_id) {
            Ok(()) => {},
            Err(e) => return Err(e),
        }
        match self.parameters.encode(buf) {
            Ok(()) => {},
            Err(e) => return Err(e),
        }
        assert(buf@ =~= old(buf)@ + spec_encode_request_update(self@)->Ok_0);
        Ok(())
    }
}

impl Decode for RequestUpdate {
    open spec fn spec_parse(s: Seq<u8>) -> SpecParse<RequestUpdateView> {
        spec_parse_request_update(s)
    }

    fn decode(cursor: &mut Cursor<'_>) -> (r: Result<Self>) {
        let ghost s = cursor.rest();
        let request_id = match cursor.read_varint() {
            Ok(v) => v,
            Err(e) => return Err(e),
        };
        let ghost n1 = spec_parse_varint(s)->Ok_0.1;
        let existing_request_id = match cursor.read_varint() {
            Ok(v) => v,
            Err(e) => return Err(e),
        };
        let ghost n2 = spec_parse_varint(s.skip(n1 as int))->Ok_0.1;
        assert(s.skip(n1 as int).skip(n2 as int) =~= s.skip((n1 + n2) as int));
        let parameters = match Parameters::decode(cursor) {
            Ok(v) => v,
            Err(e) => return Err(e),
        };
        let ghost n3 = spec_parse_params(s.skip((n1 + n2) as int))->Ok_0.1;
        assert(s.skip((n1 + n2) as int).skip(n3 as int) =~= s.skip((n1 + n2 + n3) as int));
        Ok(RequestUpdate { request_id, existing_request_id, parameters })
    }
}


/// A REQUEST_OK reads back as written, its parameters in key order.
#[verifier::spinoff_prover]
#[verifier::rlimit(80)]
pub proof fn law_request_ok_roundtrip(v: RequestOkView)
    requires
        spec_encode_request_ok(v) is Ok,
    ensures
        spec_parse_request_ok(spec_encode_request_ok(v)->Ok_0) == Ok::<(RequestOkView, nat), ErrorKind>((
            RequestOkView { request_id: v.request_id, parameters: spec_sort_kvs(v.parameters) },
            spec_encode_request_ok(v)->Ok_0.len(),
        )),
{
    let e1 = spec_encode_varint(v.request_id)->Ok_0;
    let e2 = spec_encode_params(v.parameters)->Ok_0;
    let s = spec_encode_request_ok(v)->Ok_0;
    assert(s =~= e1 + e2);
    lemma_varint_parse_roundtrip(v.request_id, e2);
    assert(s.skip((e1.len()) as int) =~= e2);
    law_params_roundtrip(v.parameters, Seq::<u8>::empty());
    assert(e2 + Seq::<u8>::empty() =~= e2);
}

/// A REQUEST_ERROR reads back as written.
#[verifier::spinoff_prover]
#[verifier::rlimit(80)]
pub proof fn law_request_error_roundtrip(v: RequestErrorMsgView)
    requires
        spec_encode_request_error(v) is Ok,
    ensures
        spec_parse_request_error(spec_encode_request_error(v)->Ok_0) == Ok::<(RequestErrorMsgView, nat), ErrorKind>((
            RequestErrorMsgView { request_id: v.request_id, error_code: v.error_code, retry_interval: v.retry_interval, error_reason: v.error_reason },
            spec_encode_request_error(v)->Ok_0.len(),
        )),
{
    let e1 = spec_encode_varint(v.request_id)->Ok_0;
    let e2 = spec_encode_varint(v.error_code)->Ok_0;
    let e3 = spec_encode_varint(v.retry_interval)->Ok_0;
    let e4 = spec_encode_reason(v.error_reason)->Ok_0;
    let s = spec_encode_request_error(v)->Ok_0;
    assert(s =~= e1 + (e2 + (e3 + e4)));
    lemma_varint_parse_roundtrip(v.request_id, e2 + (e3 + e4));
    assert(s.skip((e1.len()) as int) =~= e2 + (e3 + e4));
    lemma_varint_parse_roundtrip(v.error_code, e3 + e4);
    assert(s.skip((e1.len() + e2.len()) as int) =~= e3 + e4);
    lemma_varint_parse_roundtrip(v.retry_interval, e4);
    assert(s.skip((e1.len() + e2.len() + e3.len()) as int) =~= e4);
    law_reason_roundtrip(v.error_reason, Seq::<u8>::empty());
    assert(e4 + Seq::<u8>::empty() =~= e4);
}

/// A REQUEST_UPDATE reads back as written, its parameters in key order.
#[verifier::spinoff_prover]
#[verifier::rlimit(80)]
pub proof fn law_request_update_roundtrip(v: RequestUpdateView)
    requires
        spec_encode_request_update(v) is Ok,
    ensures
        spec_parse_request_update(spec_encode_request_update(v)->Ok_0) == Ok::<(RequestUpdateView, nat), ErrorKind>((
            RequestUpdateView { request_id: v.request_id, existing_request_id: v.existing_request_id, parameters: spec_sort_kvs(v.parameters) },
            spec_encode_request_update(v)->Ok_0.len(),
        )),
{
    let e1 = spec_encode_varint(v.request_id)->Ok_0;
    let e2 = spec_encode_varint(v.existing_request_id)->Ok_0;
    let e3 = spec_encode_params(v.parameters)->Ok_0;
    let s = spec_encode_request_update(v)->Ok_0;
    assert(s =~= e1 + (e2 + e3));
    lemma_varint_parse_roundtrip(v.request_id, e2 + e3);
    assert(s.skip((e1.len()) as int) =~= e2 + e3);
    lemma_varint_parse_roundtrip(v.existing_request_id, e3);
    assert(s.skip((e1.len() + e2.len()) as int) =~= e3);
    law_params_roundtrip(v.parameters, Seq::<u8>::empty());
    assert(e3 + Seq::<u8>::empty() =~= e3);
}

} // verus!
