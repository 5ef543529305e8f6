//! PUBLISH, PUBLISH_OK and PUBLISH_DONE.
use vstd::prelude::*;
use crate::moq_protocol::codec::{
    write_prefixed_bytes, write_varint, Cursor, Decode, Encode, SpecParse, spec_encode_prefixed,
    spec_parse_prefixed,
};
use crate::moq_protocol::error::{ErrorKind, Result};
use crate::moq_protocol::params::{Parameters, spec_encode_params, spec_parse_params};
use crate::moq_protocol::types::{
    decode_extensions_from_remaining, encode_extensions, KeyValuePair, KvSpec, ReasonPhrase,
    TrackNamespace, spec_cat, spec_encode_namespace, spec_parse_namespace, spec_encode_kvs,
    spec_parse_kvs_all, spec_kvs_view, spec_encode_reason, spec_parse_reason,
};
use crate::moq_protocol::varint::{spec_encode_varint, spec_parse_varint};use crate::moq_protocol::codec::{lemma_varint_parse_roundtrip, lemma_prefixed_roundtrip};
use crate::moq_protocol::params::{spec_sort_kvs, law_params_roundtrip};
use crate::moq_protocol::types::{
    law_namespace_roundtrip, law_namespace_prefix_roundtrip, law_kvs_all_roundtrip, law_reason_roundtrip,
    law_location_roundtrip, spec_decodable_namespace, spec_decodable_prefix,
};

verus! {

#[derive(Debug, Clone, PartialEq, Eq)]
pub struct Publish {
    pub request_id: u64,
    pub track_namespace: TrackNamespace,
    pub track_name: Vec<u8>,
    pub track_alias: u64,
    pub parameters: Parameters,
    pub track_extensions: Vec<KeyValuePair>,
}

/// Mathematical value of a [`Publish`].
pub struct PublishView {
    pub request_id: u64,
    pub track_namespace: Seq<Seq<u8>>,
    pub track_name: Seq<u8>,
    pub track_alias: u64,
    pub parameters: Seq<KvSpec>,
    pub track_extensions: Seq<KvSpec>,
}

impl View for Publish {
    type V = PublishView;

    open spec fn view(&self) -> PublishView {
        PublishView {
            request_id: self.request_id,
            track_namespace: self.track_namespace@,
            track_name: self.track_name@,
            track_alias: self.track_alias,
            parameters: self.parameters@,
            track_extensions: spec_kvs_view(self.track_extensions@),
        }
    }
}

pub open spec fn spec_encode_publish(v: PublishView) -> core::result::Result<Seq<u8>, ErrorKind> {
    spec_cat(spec_cat(spec_cat(spec_cat(spec_cat(
        spec_encode_varint(v.request_id),
        spec_encode_namespace(v.track_namespace)),
        spec_encode_prefixed(v.track_name)),
        spec_encode_varint(v.track_alias)),
        spec_encode_params(v.parameters)),
        spec_encode_kvs(v.track_extensions, 0))
}

pub open spec fn spec_parse_publish(s: Seq<u8>) -> SpecParse<PublishView> {
    match spec_parse_varint(s) {
        Err(k) => Err(k),
        Ok((request_id, n1)) => match spec_parse_namespace(s.skip(n1 as int)) {
            Err(k) => Err(k),
            Ok((track_namespace, n2)) => match spec_parse_prefixed(s.skip((n1 + n2) as int)) {
                Err(k) => Err(k),
                Ok((track_name, n3)) => match spec_parse_varint(s.skip((n1 + n2 + n3) as int)) {
                    Err(k) => Err(k),
                    Ok((track_alias, n4)) => match spec_parse_params(s.skip((n1 + n2 + n3 + n4) as int)) {
                        Err(k) => Err(k),
                        Ok((parameters, n5)) => match spec_parse_kvs_all(s.skip((n1 + n2 + n3 + n4 + n5) as int), 0) {
                            Err(k) => Err(k),
                            Ok((track_extensions, n6)) => Ok((PublishView { request_id, track_namespace, track_name, track_alias, parameters, track_extensions }, n1 + n2 + n3 + n4 + n5 + n6)),
                        },
                    },
                },
            },
        },
    }
}

impl Encode for Publish {
    open spec fn spec_encode(v: PublishView) -> core::result::Result<Seq<u8>, ErrorKind> {
        spec_encode_publish(v)
    }

    fn encode(&self, buf: &mut Vec<u8>) -> (r: Result<()>) {
        match write_varint(buf, self.request_id) {
            Ok(()) => {},
            Err(e) => return Err(e),
        }
        match self.track_namespace.encode(buf) {
            Ok(()) => {},
            Err(e) => return Err(e),
        }
        match write_prefixed_bytes(buf, self.track_name.as_slice()) {
            Ok(()) => {},
            Err(e) => return Err(e),
        }
        match write_varint(buf, self.track_alias) {
            Ok(()) => {},
            Err(e) => return Err(e),
        }
        match self.parameters.encode(buf) {
            Ok(()) => {},
            Err(e) => return Err(e),
        }
        match encode_extensions(buf, self.track_extensions.as_slice()) {
            Ok(()) => {},
            Err(e) => return Err(e),
        }
        assert(buf@ =~= old(buf)@ + spec_encode_publish(self@)->Ok_0);
        Ok(())
    }
}

impl Decode for Publish {
    open spec fn spec_parse(s: Seq<u8>) -> SpecParse<PublishView> {
        spec_parse_publish(s)
    }

    #[verifier::spinoff_prover]
    #[verifier::rlimit(40)]
    fn decode(cursor: &mut Cursor<'_>) -> (r: Result<Self>) {
        let ghost s = cursor.rest();
        let request_id = match cursor.read_varint() {
            Ok(v) => v,
            Err(e) => return Err(e),
        };
        let ghost n1 = spec_parse_varint(s)->Ok_0.1;
        let track_namespace = match TrackNamespace::decode(cursor) {
            Ok(v) => v,
            Err(e) => return Err(e),
        };
        let ghost n2 = spec_parse_namespace(s.skip(n1 as int))->Ok_0.1;
        assert(s.skip(n1 as int).skip(n2 as int) =~= s.skip((n1 + n2) as int));
        let track_name = match cursor.read_prefixed_bytes() {
            Ok(v) => vstd::slice::slice_to_vec(v),
            Err(e) => return Err(e),
        };
        let ghost n3 = spec_parse_prefixed(s.skip((n1 + n2) as int))->Ok_0.1;
        assert(s.skip((n1 + n2) as int).skip(n3 as int) =~= s.skip((n1 + n2 + n3) as int));
        let track_alias = match cursor.read_varint() {
            Ok(v) => v,
            Err(e) => return Err(e),
        };
        let ghost n4 = spec_parse_varint(s.skip((n1 + n2 + n3) as int))->Ok_0.1;
        assert(s.skip((n1 + n2 + n3) as int).skip(n4 as int) =~= s.skip((n1 + n2 + n3 + n4) as int));
        let parameters = match Parameters::decode(cursor) {
            Ok(v) => v,
            Err(e) => return Err(e),
        };
        let ghost n5 = spec_parse_params(s.skip((n1 + n2 + n3 + n4) as int))->Ok_0.1;
        assert(s.skip((n1 + n2 + n3 + n4) as int).skip(n5 as int) =~= s.skip((n1 + n2 + n3 + n4 + n5) as int));
        let track_extensions = match decode_extensions_from_remaining(cursor) {
            Ok(v) => v,
            Err(e) => return Err(e),
        };
        let ghost n6 = spec_parse_kvs_all(s.skip((n1 + n2 + n3 + n4 + n5) as int), 0)->Ok_0.1;
        assert(s.skip((n1 + n2 + n3 + n4 + n5) as int).skip(n6 as int) =~= s.skip((n1 + n2 + n3 + n4 + n5 + n6) as int));
        Ok(Publish { request_id, track_namespace, track_name, track_alias, parameters, track_extensions })
    }
}

#[derive(Debug, Clone, PartialEq, Eq)]
pub struct PublishOk {
    pub request_id: u64,
    pub parameters: Parameters,
}

/// Mathematical value of a [`PublishOk`].
pub struct PublishOkView {
    pub request_id: u64,
    pub parameters: Seq<KvSpec>,
}

impl View for PublishOk {
    type V = PublishOkView;

    open spec fn view(&self) -> PublishOkView {
        PublishOkView {
            request_id: self.request_id,
            parameters: self.parameters@,
        }
    }
}

pub open spec fn spec_encode_publish_ok(v: PublishOkView) -> core::result::Result<Seq<u8>, ErrorKind> {
    spec_cat(spec_encode_varint(v.request_id), spec_encode_params(v.parameters))
}

pub open spec fn spec_parse_publish_ok(s: Seq<u8>) -> SpecParse<PublishOkView> {
    match spec_parse_varint(s) {
        Err(k) => Err(k),
        Ok((request_id, n1)) => match spec_parse_params(s.skip(n1 as int)) {
            Err(k) => Err(k),
            Ok((parameters, n2)) => Ok((PublishOkView { request_id, parameters }, n1 + n2)),
        },
    }
}

impl Encode for PublishOk {
    open spec fn spec_encode(v: PublishOkView) -> core::result::Result<Seq<u8>, ErrorKind> {
        spec_encode_publish_ok(v)
    }

    fn encode(&self, buf: &mut Vec<u8>) -> (r: Result<()>) {
        match write_varint(buf, self.request_id) {
            Ok(()) => {},
            Err(e) => return Err(e),
        }
        match self.parameters.encode(buf) {
            Ok(()) => {},
            Err(e) => return Err(e),
        }
        assert(buf@ =~= old(buf)@ + spec_encode_publish_ok(self@)->Ok_0);
        Ok(())
    }
}

impl Decode for PublishOk {
    open spec fn spec_parse(s: Seq<u8>) -> SpecParse<PublishOkView> {
        spec_parse_publish_ok(s)
    }

    fn decode(cursor: &mut Cursor<'_>) -> (r: Result<Self>) {
        let ghost s = cursor.rest();
        let request_id = match cursor.read_varint() {
            Ok(v) => v,
            Err(e) => return Err(e),
        };
        let ghost n1 = spec_parse_varint(s)->Ok_0.1;
        let parameters = match Parameters::decode(cursor) {
            Ok(v) => v,
            Err(e) => return Err(e),
        };
        let ghost n2 = spec_parse_params(s.skip(n1 as int))->Ok_0.1;
        assert(s.skip(n1 as int).skip(n2 as int) =~= s.skip((n1 + n2) as int));
        Ok(PublishOk { request_id, parameters })
    }
}

#[derive(Debug, Clone, PartialEq, Eq)]
pub struct PublishDone {
    pub request_id: u64,
    pub status_code: u64,
    pub stream_count: u64,
    pub error_reason: ReasonPhrase,
}

/// Mathematical value of a [`PublishDone`].
pub struct PublishDoneView {
    pub request_id: u64,
    pub status_code: u64,
    pub stream_count: u64,
    pub error_reason: Seq<char>,
}

impl View for PublishDone {
    type V = PublishDoneView;

    open spec fn view(&self) -> PublishDoneView {
        PublishDoneView {
            request_id: self.request_id,
            status_code: self.status_code,
            stream_count: self.stream_count,
            error_reason: self.error_reason@,
        }
    }
}

pub open spec fn spec_encode_publish_done(v: PublishDoneView) -> core::result::Result<Seq<u8>, ErrorKind> {
    spec_cat(spec_cat(spec_cat(
        spec_encode_varint(v.request_id),
        spec_encode_varint(v.status_code)),
        spec_encode_varint(v.stream_count)),
        spec_encode_reason(v.error_reason))
}

pub open spec fn spec_parse_publish_done(s: Seq<u8>) -> SpecParse<PublishDoneView> {
    match spec_parse_varint(s) {
        Err(k) => Err(k),
        Ok((request_id, n1)) => match spec_parse_varint(s.skip(n1 as int)) {
            Err(k) => Err(k),
            Ok((status_code, n2)) => match spec_parse_varint(s.skip((n1 + n2) as int)) {
                Err(k) => Err(k),
                Ok((stream_count, n3)) => match spec_parse_reason(s.skip((n1 + n2 + n3) as int)) {
                    Err(k) => Err(k),
                    Ok((error_reason, n4)) => Ok((PublishDoneView { request_id, status_code, stream_count, error_reason }, n1 + n2 + n3 + n4)),
                },
            },
        },
    }
}

impl Encode for PublishDone {
    open spec fn spec_encode(v: PublishDoneView) -> core::result::Result<Seq<u8>, ErrorKind> {
        spec_encode_publish_done(v)
    }

    fn encode(&self, buf: &mut Vec<u8>) -> (r: Result<()>) {
        match write_varint(buf, self.request_id) {
            Ok(()) => {},
            Err(e) => return Err(e),
        }
        match write_varint(buf, self.status_code) {
            Ok(()) => {},
            Err(e) => return Err(e),
        }
        match write_varint(buf, self.stream_count) {
            Ok(()) => {},
            Err(e) => return Err(e),
        }
        match self.error_reason.encode(buf) {
            Ok(()) => {},
            Err(e) => return Err(e),
        }
        assert(buf@ =~= old(buf)@ + spec_encode_publish_done(self@)->Ok_0);
        Ok(())
    }
}

impl Decode for PublishDone {
    open spec fn spec_parse(s: Seq<u8>) -> SpecParse<PublishDoneView> {
        spec_parse_publish_done(s)
    }

    fn decode(cursor: &mut Cursor<'_>) -> (r: Result<Self>) {
        let ghost s = cursor.rest();
        let request_id = match cursor.read_varint() {
            Ok(v) => v,
            Err(e) => return Err(e),
        };
        let ghost n1 = spec_parse_varint(s)->Ok_0.1;
        let status_code = match cursor.read_varint() {
            Ok(v) => v,
            Err(e) => return Err(e),
        };
        let ghost n2 = spec_parse_varint(s.skip(n1 as int))->Ok_0.1;
        assert(s.skip(n1 as int).skip(n2 as int) =~= s.skip((n1 + n2) as int));
        let stream_count = match cursor.read_varint() {
            Ok(v) => v,
            Err(e) => return Err(e),
        };
        let ghost n3 = spec_parse_varint(s.skip((n1 + n2) as int))->Ok_0.1;
        assert(s.skip((n1 + n2) as int).skip(n3 as int) =~= s.skip((n1 + n2 + n3) as int));
        let error_reason = match ReasonPhrase::decode(cursor) {
            Ok(v) => v,
            Err(e) => return Err(e),
        };
        let ghost n4 = spec_parse_reason(s.skip((n1 + n2 + n3) as int))->Ok_0.1;
        assert(s.skip((n1 + n2 + n3) as int).skip(n4 as int) =~= s.skip((n1 + n2 + n3 + n4) as int));
        Ok(PublishDone { request_id, status_code, stream_count, error_reason })
    }
}


/// A PUBLISH whose namespace the decoder accepts reads back as written, its parameters in key order.
#[verifier::spinoff_prover]
#[verifier::rlimit(100)]
pub proof fn law_publish_roundtrip(v: PublishView)
    requires
        spec_encode_publish(v) is Ok,
        spec_decodable_namespace(v.track_namespace),
    ensures
        spec_parse_publish(spec_encode_publish(v)->Ok_0) == Ok::<(PublishView, nat), ErrorKind>((
            PublishView { request_id: v.request_id, track_namespace: v.track_namespace, track_name: v.track_name, track_alias: v.track_alias, parameters: spec_sort_kvs(v.parameters), track_extensions: v.track_extensions },
            spec_encode_publish(v)->Ok_0.len(),
        )),
{
    let e1 = spec_encode_varint(v.request_id)->Ok_0;
    let e2 = spec_encode_namespace(v.track_namespace)->Ok_0;
    let e3 = spec_encode_prefixed(v.track_name)->Ok_0;
    let e4 = spec_encode_varint(v.track_alias)->Ok_0;
    let e5 = spec_encode_params(v.parameters)->Ok_0;
    let e6 = spec_encode_kvs(v.track_extensions, 0)->Ok_0;
    let s = spec_encode_publish(v)->Ok_0;
    assert(spec_encode_varint(v.request_id) is Ok && spec_encode_namespace(v.track_namespace) is Ok
        && spec_encode_prefixed(v.track_name) is Ok && spec_encode_varint(v.track_alias) is Ok
        && spec_encode_params(v.parameters) is Ok && spec_encode_kvs(v.track_extensions, 0) is Ok);
    assert(s =~= e1 + (e2 + (e3 + (e4 + (e5 + e6)))));
    lemma_varint_parse_roundtrip(v.request_id, e2 + (e3 + (e4 + (e5 + e6))));
    assert(s.skip((e1.len()) as int) =~= e2 + (e3 + (e4 + (e5 + e6))));
    law_namespace_roundtrip(v.track_namespace, e3 + (e4 + (e5 + e6)));
    assert(s.skip((e1.len() + e2.len()) as int) =~= e3 + (e4 + (e5 + e6)));
    lemma_prefixed_roundtrip(v.track_name, e4 + (e5 + e6));
    assert(s.skip((e1.len() + e2.len() + e3.len()) as int) =~= e4 + (e5 + e6));
    lemma_varint_parse_roundtrip(v.track_alias, e5 + e6);
    assert(s.skip((e1.len() + e2.len() + e3.len() + e4.len()) as int) =~= e5 + e6);
    law_params_roundtrip(v.parameters, e6);
    assert(s.skip((e1.len() + e2.len() + e3.len() + e4.len() + e5.len()) as int) =~= e6);
    law_kvs_all_roundtrip(v.track_extensions, 0);
    assert(spec_parse_varint(s) == Ok::<(u64, nat), ErrorKind>((v.request_id, e1.len())));
    assert(spec_parse_namespace(s.skip(e1.len() as int)) == Ok::<(Seq<Seq<u8>>, nat), ErrorKind>((v.track_namespace, e2.len())));
    assert(spec_parse_prefixed(s.skip((e1.len() + e2.len()) as int)) == Ok::<(Seq<u8>, nat), ErrorKind>((v.track_name, e3.len())));
    assert(spec_parse_varint(s.skip((e1.len() + e2.len() + e3.len()) as int)) == Ok::<(u64, nat), ErrorKind>((v.track_alias, e4.len())));
    assert(spec_parse_params(s.skip((e1.len() + e2.len() + e3.len() + e4.len()) as int))
        == Ok::<(Seq<KvSpec>, nat), ErrorKind>((spec_sort_kvs(v.parameters), e5.len())));
    assert(spec_parse_kvs_all(s.skip((e1.len() + e2.len() + e3.len() + e4.len() + e5.len()) as int), 0)
        == Ok::<(Seq<KvSpec>, nat), ErrorKind>((v.track_extensions, e6.len())));
}

/// A PUBLISH_OK reads back as written, its parameters in key order.
#[verifier::spinoff_prover]
#[verifier::rlimit(80)]
pub proof fn law_publish_ok_roundtrip(v: PublishOkView)
    requires
        spec_encode_publish_ok(v) is Ok,
    ensures
        spec_parse_publish_ok(spec_encode_publish_ok(v)->Ok_0) == Ok::<(PublishOkView, nat), ErrorKind>((
            PublishOkView { request_id: v.request_id, parameters: spec_sort_kvs(v.parameters) },
            spec_encode_publish_ok(v)->Ok_0.len(),
        )),
{
    let e1 = spec_encode_varint(v.request_id)->Ok_0;
    let e2 = spec_encode_params(v.parameters)->Ok_0;
    let s = spec_encode_publish_ok(v)->Ok_0;
    assert(s =~= e1 + e2);
    lemma_varint_parse_roundtrip(v.request_id, e2);
    assert(s.skip((e1.len()) as int) =~= e2);
    law_params_roundtrip(v.parameters, Seq::<u8>::empty());
    assert(e2 + Seq::<u8>::empty() =~= e2);
}

/// A PUBLISH_DONE reads back as written.
#[verifier::spinoff_prover]
#[verifier::rlimit(80)]
pub proof fn law_publish_done_roundtrip(v: PublishDoneView)
    requires
        spec_encode_publish_done(v) is Ok,
    ensures
        spec_parse_publish_done(spec_encode_publish_done(v)->Ok_0) == Ok::<(PublishDoneView, nat), ErrorKind>((
            PublishDoneView { request_id: v.request_id, status_code: v.status_code, stream_count: v.stream_count, error_reason: v.error_reason },
            spec_encode_publish_done(v)->Ok_0.len(),
        )),
{
    let e1 = spec_encode_varint(v.request_id)->Ok_0;
    let e2 = spec_encode_varint(v.status_code)->Ok_0;
    let e3 = spec_encode_varint(v.stream_count)->Ok_0;
    let e4 = spec_encode_reason(v.error_reason)->Ok_0;
    let s = spec_encode_publish_done(v)->Ok_0;
    assert(s =~= e1 + (e2 + (e3 + e4)));
    lemma_varint_parse_roundtrip(v.request_id, e2 + (e3 + e4));
    assert(s.skip((e1.len()) as int) =~= e2 + (e3 + e4));
    lemma_varint_parse_roundtrip(v.status_code, e3 + e4);
    assert(s.skip((e1.len() + e2.len()) as int) =~= e3 + e4);
    lemma_varint_parse_roundtrip(v.stream_count, e4);
    assert(s.skip((e1.len() + e2.len() + e3.len()) as int) =~= e4);
    law_reason_roundtrip(v.error_reason, Seq::<u8>::empty());
    assert(e4 + Seq::<u8>::empty() =~= e4);
}

} // verus!
