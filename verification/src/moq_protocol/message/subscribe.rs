//! SUBSCRIBE and SUBSCRIBE_OK.
use vstd::prelude::*;
use crate::moq_protocol::codec::{
    write_prefixed_bytes, write_varint, Cursor, Decode, Encode, SpecParse, spec_encode_prefixed,
    spec_parse_prefixed,
};
use crate::moq_protocol::error::{ErrorKind, Result};
use crate::moq_protocol::params::{Parameters, spec_encode_params, spec_parse_params};
use crate::moq_protocol::types::{
    decode_extensions_from_remaining, encode_extensions, KeyValuePair, KvSpec, TrackNamespace,
    spec_cat, spec_encode_namespace, spec_parse_namespace, spec_encode_kvs, spec_parse_kvs_all,
    spec_kvs_view,
};
use crate::moq_protocol::varint::{spec_encode_varint, spec_parse_varint};
use crate::moq_protocol::codec::{lemma_varint_parse_roundtrip, lemma_prefixed_roundtrip};
use crate::moq_protocol::params::{spec_sort_kvs, law_params_roundtrip};
use crate::moq_protocol::types::{
    law_namespace_roundtrip, law_namespace_prefix_roundtrip, law_kvs_all_roundtrip, law_reason_roundtrip,
    law_location_roundtrip, spec_decodable_namespace, spec_decodable_prefix,
};

verus! {

#[derive(Debug, Clone, PartialEq, Eq)]
pub struct Subscribe {
    pub request_id: u64,
    pub track_namespace: TrackNamespace,
    pub track_name: Vec<u8>,
    pub parameters: Parameters,
}

/// Mathematical value of a [`Subscribe`].
pub struct SubscribeView {
    pub request_id: u64,
    pub track_namespace: Seq<Seq<u8>>,
    pub track_name: Seq<u8>,
    pub parameters: Seq<KvSpec>,
}

impl View for Subscribe {
    type V = SubscribeView;

    open spec fn view(&self) -> SubscribeView {
        SubscribeView {
            request_id: self.request_id,
            track_namespace: self.track_namespace@,
            track_name: self.track_name@,
            parameters: self.parameters@,
        }
    }
}

pub open spec fn spec_encode_subscribe(v: SubscribeView) -> core::result::Result<Seq<u8>, ErrorKind> {
    spec_cat(spec_cat(spec_cat(
        spec_encode_varint(v.request_id),
        spec_encode_namespace(v.track_namespace)),
        spec_encode_prefixed(v.track_name)),
        spec_encode_params(v.parameters))
}

pub open spec fn spec_parse_subscribe(s: Seq<u8>) -> SpecParse<SubscribeView> {
    match spec_parse_varint(s) {
        Err(k) => Err(k),
        Ok((request_id, n1)) => match spec_parse_namespace(s.skip(n1 as int)) {
            Err(k) => Err(k),
            Ok((track_namespace, n2)) => match spec_parse_prefixed(s.skip((n1 + n2) as int)) {
                Err(k) => Err(k),
                Ok((track_name, n3)) => match spec_parse_params(s.skip((n1 + n2 + n3) as int)) {
                    Err(k) => Err(k),
                    Ok((parameters, n4)) => Ok((
                        SubscribeView { request_id, track_namespace, track_name, parameters },
                        n1 + n2 + n3 + n4,
                    )),
                },
            },
        },
    }
}

impl Encode for Subscribe {
    open spec fn spec_encode(v: SubscribeView) -> core::result::Result<Seq<u8>, ErrorKind> {
        spec_encode_subscribe(v)
    }

    fn encode(&self, buf: &mut Vec<u8>) -> (r: Result<()>) {
        match write_varint(buf, self.request_id) {
            Ok(()) => {},
            Err(e) => return Err(e),
        }
        match self.track_namespace.encode(buf) {
            Ok(()) => {},
            Err(e) => return Err(e),
        }
        match write_prefixed_bytes(buf, self.track_name.as_slice()) {
            Ok(()) => {},
            Err(e) => return Err(e),
        }
        match self.parameters.encode(buf) {
            Ok(()) => {},
            Err(e) => return Err(e),
        }
        assert(buf@ =~= old(buf)@ + spec_encode_subscribe(self@)->Ok_0);
        Ok(())
    }
}

impl Decode for Subscribe {
    open spec fn spec_parse(s: Seq<u8>) -> SpecParse<SubscribeView> {
        spec_parse_subscribe(s)
    }

    fn decode(cursor: &mut Cursor<'_>) -> (r: Result<Self>) {
        let ghost s = cursor.rest();
        let request_id = match cursor.read_varint() {
            Ok(v) => v,
            Err(e) => return Err(e),
        };
        let ghost n1 = spec_parse_varint(s)->Ok_0.1;
        let track_namespace = match TrackNamespace::decode(cursor) {
            Ok(v) => v,
            Err(e) => return Err(e),
        };
        let ghost n2 = spec_parse_namespace(s.skip(n1 as int))->Ok_0.1;
        assert(s.skip(n1 as int).skip(n2 as int) =~= s.skip((n1 + n2) as int));
        let track_name = match cursor.read_prefixed_bytes() {
            Ok(v) => vstd::slice::slice_to_vec(v),
            Err(e) => return Err(e),
        };
        let ghost n3 = spec_parse_prefixed(s.skip((n1 + n2) as int))->Ok_0.1;
        assert(s.skip((n1 + n2) as int).skip(n3 as int) =~= s.skip((n1 + n2 + n3) as int));
        let parameters = match Parameters::decode(cursor) {
            Ok(v) => v,
            Err(e) => return Err(e),
        };
        proof {
            let n4 = spec_parse_params(s.skip((n1 + n2 + n3) as int))->Ok_0.1;
            assert(s.skip((n1 + n2 + n3) as int).skip(n4 as int) =~= s.skip((n1 + n2 + n3 + n4) as int));
        }
        Ok(Subscribe { request_id, track_namespace, track_name, parameters })
    }
}

#[derive(Debug, Clone, PartialEq, Eq)]
pub struct SubscribeOk {
    pub request_id: u64,
    pub track_alias: u64,
    pub parameters: Parameters,
    pub track_extensions: Vec<KeyValuePair>,
}

/// Mathematical value of a [`SubscribeOk`].
pub struct SubscribeOkView {
    pub request_id: u64,
    pub track_alias: u64,
    pub parameters: Seq<KvSpec>,
    pub track_extensions: Seq<KvSpec>,
}

impl View for SubscribeOk {
    type V = SubscribeOkView;

    open spec fn view(&self) -> SubscribeOkView {
        SubscribeOkView {
            request_id: self.request_id,
            track_alias: self.track_alias,
            parameters: self.parameters@,
            track_extensions: spec_kvs_view(self.track_extensions@),
        }
    }
}

pub open spec fn spec_encode_subscribe_ok(v: SubscribeOkView) -> core::result::Result<Seq<u8>, ErrorKind> {
    spec_cat(spec_cat(spec_cat(
        spec_encode_varint(v.request_id),
        spec_encode_varint(v.track_alias)),
        spec_encode_params(v.parameters)),
        spec_encode_kvs(v.track_extensions, 0))
}

pub open spec fn spec_parse_subscribe_ok(s: Seq<u8>) -> SpecParse<SubscribeOkView> {
    match spec_parse_varint(s) {
        Err(k) => Err(k),
        Ok((request_id, n1)) => match spec_parse_varint(s.skip(n1 as int)) {
            Err(k) => Err(k),
            Ok((track_alias, n2)) => match spec_parse_params(s.skip((n1 + n2) as int)) {
                Err(k) => Err(k),
                Ok((parameters, n3)) => match spec_parse_kvs_all(s.skip((n1 + n2 + n3) as int), 0) {
                    Err(k) => Err(k),
                    Ok((track_extensions, n4)) => Ok((
                        SubscribeOkView { request_id, track_alias, parameters, track_extensions },
                        n1 + n2 + n3 + n4,
                    )),
                },
            },
        },
    }
}

impl Encode for SubscribeOk {
    open spec fn spec_encode(v: SubscribeOkView) -> core::result::Result<Seq<u8>, ErrorKind> {
        spec_encode_subscribe_ok(v)
    }

    fn encode(&self, buf: &mut Vec<u8>) -> (r: Result<()>) {
        match write_varint(buf, self.request_id) {
            Ok(()) => {},
            Err(e) => return Err(e),
        }
        match write_varint(buf, self.track_alias) {
            Ok(()) => {},
            Err(e) => return Err(e),
        }
        match self.parameters.encode(buf) {
            Ok(()) => {},
            Err(e) => return Err(e),
        }
        match encode_extensions(buf, self.track_extensions.as_slice()) {
            Ok(()) => {},
            Err(e) => return Err(e),
        }
        assert(buf@ =~= old(buf)@ + spec_encode_subscribe_ok(self@)->Ok_0);
        Ok(())
    }
}

impl Decode for SubscribeOk {
    open spec fn spec_parse(s: Seq<u8>) -> SpecParse<SubscribeOkView> {
        spec_parse_subscribe_ok(s)
    }

    fn decode(cursor: &mut Cursor<'_>) -> (r: Result<Self>) {
        let ghost s = cursor.rest();
        let request_id = match cursor.read_varint() {
            Ok(v) => v,
            Err(e) => return Err(e),
        };
        let ghost n1 = spec_parse_varint(s)->Ok_0.1;
        let track_alias = match cursor.read_varint() {
            Ok(v) => v,
            Err(e) => return Err(e),
        };
        let ghost n2 = spec_parse_varint(s.skip(n1 as int))->Ok_0.1;
        assert(s.skip(n1 as int).skip(n2 as int) =~= s.skip((n1 + n2) as int));
        let parameters = match Parameters::decode(cursor) {
            Ok(v) => v,
            Err(e) => return Err(e),
        };
        let ghost n3 = spec_parse_params(s.skip((n1 + n2) as int))->Ok_0.1;
        assert(s.skip((n1 + n2) as int).skip(n3 as int) =~= s.skip((n1 + n2 + n3) as int));
        let track_extensions = match decode_extensions_from_remaining(cursor) {
            Ok(v) => v,
            Err(e) => return Err(e),
        };
        proof {
            let n4 = spec_parse_kvs_all(s.skip((n1 + n2 + n3) as int), 0)->Ok_0.1;
            assert(s.skip((n1 + n2 + n3) as int).skip(n4 as int) =~= s.skip((n1 + n2 + n3 + n4) as int));
        }
        Ok(SubscribeOk { request_id, track_alias, parameters, track_extensions })
    }
}


/// A SUBSCRIBE whose namespace the decoder accepts reads back as written, its parameters in key order.
#[verifier::spinoff_prover]
#[verifier::rlimit(80)]
pub proof fn law_subscribe_roundtrip(v: SubscribeView)
    requires
        spec_encode_subscribe(v) is Ok,
        spec_decodable_namespace(v.track_namespace),
    ensures
        spec_parse_subscribe(spec_encode_subscribe(v)->Ok_0) == Ok::<(SubscribeView, nat), ErrorKind>((
            SubscribeView { request_id: v.request_id, track_namespace: v.track_namespace, track_name: v.track_name, parameters: spec_sort_kvs(v.parameters) },
            spec_encode_subscribe(v)->Ok_0.len(),
        )),
{
    let e1 = spec_encode_varint(v.request_id)->Ok_0;
    let e2 = spec_encode_namespace(v.track_namespace)->Ok_0;
    let e3 = spec_encode_prefixed(v.track_name)->Ok_0;
    let e4 = spec_encode_params(v.parameters)->Ok_0;
    let s = spec_encode_subscribe(v)->Ok_0;
    assert(s =~= e1 + (e2 + (e3 + e4)));
    lemma_varint_parse_roundtrip(v.request_id, e2 + (e3 + e4));
    assert(s.skip((e1.len()) as int) =~= e2 + (e3 + e4));
    law_namespace_roundtrip(v.track_namespace, e3 + e4);
    assert(s.skip((e1.len() + e2.len()) as int) =~= e3 + e4);
    lemma_prefixed_roundtrip(v.track_name, e4);
    assert(s.skip((e1.len() + e2.len() + e3.len()) as int) =~= e4);
    law_params_roundtrip(v.parameters, Seq::<u8>::empty());
    assert(e4 + Seq::<u8>::empty() =~= e4);
}

/// A SUBSCRIBE_OK reads back as written, its parameters in key order.
#[verifier::spinoff_prover]
#[verifier::rlimit(80)]
pub proof fn law_subscribe_ok_roundtrip(v: SubscribeOkView)
    requires
        spec_encode_subscribe_ok(v) is Ok,
    ensures
        spec_parse_subscribe_ok(spec_encode_subscribe_ok(v)->Ok_0) == Ok::<(SubscribeOkView, nat), ErrorKind>((
            SubscribeOkView { request_id: v.request_id, track_alias: v.track_alias, parameters: spec_sort_kvs(v.parameters), track_extensions: v.track_extensions },
            spec_encode_subscribe_ok(v)->Ok_0.len(),
        )),
{
    let e1 = spec_encode_varint(v.request_id)->Ok_0;
    let e2 = spec_encode_varint(v.track_alias)->Ok_0;
    let e3 = spec_encode_params(v.parameters)->Ok_0;
    let e4 = spec_encode_kvs(v.track_extensions, 0)->Ok_0;
    let s = spec_encode_subscribe_ok(v)->Ok_0;
    assert(s =~= e1 + (e2 + (e3 + e4)));
    lemma_varint_parse_roundtrip(v.request_id, e2 + (e3 + e4));
    assert(s.skip((e1.len()) as int) =~= e2 + (e3 + e4));
    lemma_varint_parse_roundtrip(v.track_alias, e3 + e4);
    assert(s.skip((e1.len() + e2.len()) as int) =~= e3 + e4);
    law_params_roundtrip(v.parameters, e4);
    assert(s.skip((e1.len() + e2.len() + e3.len()) as int) =~= e4);
    law_kvs_all_roundtrip(v.track_extensions, 0);
}

} // verus!
