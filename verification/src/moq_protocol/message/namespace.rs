//! Namespace publication and subscription messages.
use vstd::prelude::*;
use crate::moq_protocol::codec::{write_varint, Cursor, Decode, Encode, SpecParse};
use crate::moq_protocol::error::{ErrorKind, Result};
use crate::moq_protocol::params::{Parameters, spec_encode_params, spec_parse_params};
use crate::moq_protocol::types::{
    KvSpec, ReasonPhrase, SubscribeOption, TrackNamespace, TrackNamespacePrefix, spec_cat,
    spec_encode_namespace, spec_parse_namespace, spec_parse_namespace_prefix, spec_encode_reason,
    spec_parse_reason,
};
use crate::moq_protocol::varint::{spec_encode_varint, spec_parse_varint};use crate::moq_protocol::codec::{lemma_varint_parse_roundtrip, lemma_prefixed_roundtrip};
use crate::moq_protocol::params::{spec_sort_kvs, law_params_roundtrip};
use crate::moq_protocol::types::{
    law_namespace_roundtrip, law_namespace_prefix_roundtrip, law_kvs_all_roundtrip, law_reason_roundtrip,
    law_location_roundtrip, spec_decodable_namespace, spec_decodable_prefix,
};

verus! {

#[derive(Debug, Clone, PartialEq, Eq)]
pub struct PublishNamespace {
    pub request_id: u64,
    pub track_namespace: TrackNamespace,
    pub parameters: Parameters,
}

/// Mathematical value of a [`PublishNamespace`].
pub struct PublishNamespaceView {
    pub request_id: u64,
    pub track_namespace: Seq<Seq<u8>>,
    pub parameters: Seq<KvSpec>,
}

impl View for PublishNamespace {
    type V = PublishNamespaceView;

    open spec fn view(&self) -> PublishNamespaceView {
        PublishNamespaceView {
            request_id: self.request_id,
            track_namespace: self.track_namespace@,
            parameters: self.parameters@,
        }
    }
}

pub open spec fn spec_encode_publish_namespace(v: PublishNamespaceView) -> core::result::Result<Seq<u8>, ErrorKind> {
    spec_cat(spec_cat(
        spec_encode_varint(v.request_id),
        spec_encode_namespace(v.track_namespace)),
        spec_encode_params(v.parameters))
}

pub open spec fn spec_parse_publish_namespace(s: Seq<u8>) -> SpecParse<PublishNamespaceView> {
    match spec_parse_varint(s) {
        Err(k) => Err(k),
        Ok((request_id, n1)) => match spec_parse_namespace(s.skip(n1 as int)) {
            Err(k) => Err(k),
            Ok((track_namespace, n2)) => match spec_parse_params(s.skip((n1 + n2) as int)) {
                Err(k) => Err(k),
                Ok((parameters, n3)) => Ok((PublishNamespaceView { request_id, track_namespace, parameters }, n1 + n2 + n3)),
            },
        },
    }
}

impl Encode for PublishNamespace {
    open spec fn spec_encode(v: PublishNamespaceView) -> core::result::Result<Seq<u8>, ErrorKind> {
        spec_encode_publish_namespace(v)
    }

    fn encode(&self, buf: &mut Vec<u8>) -> (r: Result<()>) {
        match write_varint(buf, self.request_id) {
            Ok(()) => {},
            Err(e) => return Err(e),
        }
        match self.track_namespace.encode(buf) {
            Ok(()) => {},
            Err(e) => return Err(e),
        }
        match self.parameters.encode(buf) {
            Ok(()) => {},
            Err(e) => return Err(e),
        }
        assert(buf@ =~= old(buf)@ + spec_encode_publish_namespace(self@)->Ok_0);
        Ok(())
    }
}

impl Decode for PublishNamespace {
    open spec fn spec_parse(s: Seq<u8>) -> SpecParse<PublishNamespaceView> {
        spec_parse_publish_namespace(s)
    }

    fn decode(cursor: &mut Cursor<'_>) -> (r: Result<Self>) {
        let ghost s = cursor.rest();
        let request_id = match cursor.read_varint() {
            Ok(v) => v,
            Err(e) => return Err(e),
        };
        let ghost n1 = spec_parse_varint(s)->Ok_0.1;
        let track_namespace = match TrackNamespace::decode(cursor) {
            Ok(v) => v,
            Err(e) => return Err(e),
        };
        let ghost n2 = spec_parse_namespace(s.skip(n1 as int))->Ok_0.1;
        assert(s.skip(n1 as int).skip(n2 as int) =~= s.skip((n1 + n2) as int));
        let parameters = match Parameters::decode(cursor) {
            Ok(v) => v,
            Err(e) => return Err(e),
        };
        let ghost n3 = spec_parse_params(s.skip((n1 + n2) as int))->Ok_0.1;
        assert(s.skip((n1 + n2) as int).skip(n3 as int) =~= s.skip((n1 + n2 + n3) as int));
        Ok(PublishNamespace { request_id, track_namespace, parameters })
    }
}

#[derive(Debug, Clone, PartialEq, Eq)]
pub struct PublishNamespaceCancel {
    pub request_id: u64,
    pub error_code: u64,
    pub error_reason: ReasonPhrase,
}

/// Mathematical value of a [`PublishNamespaceCancel`].
pub struct PublishNamespaceCancelView {
    pub request_id: u64,
    pub error_code: u64,
    pub error_reason: Seq<char>,
}

impl View for PublishNamespaceCancel {
    type V = PublishNamespaceCancelView;

    open spec fn view(&self) -> PublishNamespaceCancelView {
        PublishNamespaceCancelView {
            request_id: self.request_id,
            error_code: self.error_code,
            error_reason: self.error_reason@,
        }
    }
}

pub open spec fn spec_encode_publish_namespace_cancel(v: PublishNamespaceCancelView) -> core::result::Result<Seq<u8>, ErrorKind> {
    spec_cat(spec_cat(
        spec_encode_varint(v.request_id),
        spec_encode_varint(v.error_code)),
        spec_encode_reason(v.error_reason))
}

pub open spec fn spec_parse_publish_namespace_cancel(s: Seq<u8>) -> SpecParse<PublishNamespaceCancelView> {
    match spec_parse_varint(s) {
        Err(k) => Err(k),
        Ok((request_id, n1)) => match spec_parse_varint(s.skip(n1 as int)) {
            Err(k) => Err(k),
            Ok((error_code, n2)) => match spec_parse_reason(s.skip((n1 + n2) as int)) {
                Err(k) => Err(k),
                Ok((error_reason, n3)) => Ok((PublishNamespaceCancelView { request_id, error_code, error_reason }, n1 + n2 + n3)),
            },
        },
    }
}

impl Encode for PublishNamespaceCancel {
    open spec fn spec_encode(v: PublishNamespaceCancelView) -> core::result::Result<Seq<u8>, ErrorKind> {
        spec_encode_publish_namespace_cancel(v)
    }

    fn encode(&self, buf: &mut Vec<u8>) -> (r: Result<()>) {
        match write_varint(buf, self.request_id) {
            Ok(()) => {},
            Err(e) => return Err(e),
        }
        match write_varint(buf, self.error_code) {
            Ok(()) => {},
            Err(e) => return Err(e),
        }
        match self.error_reason.encode(buf) {
            Ok(()) => {},
            Err(e) => return Err(e),
        }
        assert(buf@ =~= old(buf)@ + spec_encode_publish_namespace_cancel(self@)->Ok_0);
        Ok(())
    }
}

impl Decode for PublishNamespaceCancel {
    open spec fn spec_parse(s: Seq<u8>) -> SpecParse<PublishNamespaceCancelView> {
        spec_parse_publish_namespace_cancel(s)
    }

    fn decode(cursor: &mut Cursor<'_>) -> (r: Result<Self>) {
        let ghost s = cursor.rest();
        let request_id = match cursor.read_varint() {
            Ok(v) => v,
            Err(e) => return Err(e),
        };
        let ghost n1 = spec_parse_varint(s)->Ok_0.1;
        let error_code = match cursor.read_varint() {
            Ok(v) => v,
            Err(e) => return Err(e),
        };
        let ghost n2 = spec_parse_varint(s.skip(n1 as int))->Ok_0.1;
        assert(s.skip(n1 as int).skip(n2 as int) =~= s.skip((n1 + n2) as int));
        let error_reason = match ReasonPhrase::decode(cursor) {
            Ok(v) => v,
            Err(e) => return Err(e),
        };
        let ghost n3 = spec_parse_reason(s.skip((n1 + n2) as int))->Ok_0.1;
        assert(s.skip((n1 + n2) as int).skip(n3 as int) =~= s.skip((n1 + n2 + n3) as int));
        Ok(PublishNamespaceCancel { request_id, error_code, error_reason })
    }
}
#[derive(Debug, Clone, PartialEq, Eq)]
pub struct Namespace {
    pub track_namespace_suffix: TrackNamespacePrefix,
}

impl View for Namespace {
    type V = Seq<Seq<u8>>;

    open spec fn view(&self) -> Seq<Seq<u8>> {
        self.track_namespace_suffix@
    }
}

impl Encode for Namespace {
    open spec fn spec_encode(v: Seq<Seq<u8>>) -> core::result::Result<Seq<u8>, ErrorKind> {
        spec_encode_namespace(v)
    }

    fn encode(&self, buf: &mut Vec<u8>) -> (r: Result<()>) {
        self.track_namespace_suffix.encode(buf)
    }
}

impl Decode for Namespace {
    open spec fn spec_parse(s: Seq<u8>) -> SpecParse<Seq<Seq<u8>>> {
        spec_parse_namespace_prefix(s)
    }

    fn decode(cursor: &mut Cursor<'_>) -> (r: Result<Self>) {
        match TrackNamespacePrefix::decode(cursor) {
            Ok(v) => Ok(Namespace { track_namespace_suffix: v }),
            Err(e) => Err(e),
        }
    }
}

#[derive(Debug, Clone, PartialEq, Eq)]
pub struct PublishNamespaceDone {
    pub request_id: u64,
}

impl View for PublishNamespaceDone {
    type V = u64;

    open spec fn view(&self) -> u64 {
        self.request_id
    }
}

impl Encode for PublishNamespaceDone {
    open spec fn spec_encode(v: u64) -> core::result::Result<Seq<u8>, ErrorKind> {
        spec_encode_varint(v)
    }

    fn encode(&self, buf: &mut Vec<u8>) -> (r: Result<()>) {
        write_varint(buf, self.request_id)
    }
}

impl Decode for PublishNamespaceDone {
    open spec fn spec_parse(s: Seq<u8>) -> SpecParse<u64> {
        spec_parse_varint(s)
    }

    fn decode(cursor: &mut Cursor<'_>) -> (r: Result<Self>) {
        match cursor.read_varint() {
            Ok(v) => Ok(PublishNamespaceDone { request_id: v }),
            Err(e) => Err(e),
        }
    }
}

#[derive(Debug, Clone, PartialEq, Eq)]
pub struct NamespaceDone {
    pub track_namespace_suffix: TrackNamespacePrefix,
}

impl View for NamespaceDone {
    type V = Seq<Seq<u8>>;

    open spec fn view(&self) -> Seq<Seq<u8>> {
        self.track_namespace_suffix@
    }
}

impl Encode for NamespaceDone {
    open spec fn spec_encode(v: Seq<Seq<u8>>) -> core::result::Result<Seq<u8>, ErrorKind> {
        spec_encode_namespace(v)
    }

    fn encode(&self, buf: &mut Vec<u8>) -> (r: Result<()>) {
        self.track_namespace_suffix.encode(buf)
    }
}

impl Decode for NamespaceDone {
    open spec fn spec_parse(s: Seq<u8>) -> SpecParse<Seq<Seq<u8>>> {
        spec_parse_namespace_prefix(s)
    }

    fn decode(cursor: &mut Cursor<'_>) -> (r: Result<Self>) {
        match TrackNamespacePrefix::decode(cursor) {
            Ok(v) => Ok(NamespaceDone { track_namespace_suffix: v }),
            Err(e) => Err(e),
        }
    }
}

#[derive(Debug, Clone, PartialEq, Eq)]
pub struct SubscribeNamespace {
    pub request_id: u64,
    pub track_namespace_prefix: TrackNamespacePrefix,
    pub subscribe_options: SubscribeOption,
    pub parameters: Parameters,
}

/// Mathematical value of a [`SubscribeNamespace`].
pub struct SubscribeNamespaceView {
    pub request_id: u64,
    pub track_namespace_prefix: Seq<Seq<u8>>,
    pub subscribe_options: SubscribeOption,
    pub parameters: Seq<KvSpec>,
}

impl View for SubscribeNamespace {
    type V = SubscribeNamespaceView;

    open spec fn view(&self) -> SubscribeNamespaceView {
        SubscribeNamespaceView {
            request_id: self.request_id,
            track_namespace_prefix: self.track_namespace_prefix@,
            subscribe_options: self.subscribe_options,
            parameters: self.parameters@,
        }
    }
}

pub open spec fn spec_encode_subscribe_namespace(v: SubscribeNamespaceView) -> core::result::Result<Seq<u8>, ErrorKind> {
    spec_cat(spec_cat(spec_cat(
        spec_encode_varint(v.request_id),
        spec_encode_namespace(v.track_namespace_prefix)),
        spec_encode_varint(v.subscribe_options.spec_code())),
        spec_encode_params(v.parameters))
}

pub open spec fn spec_parse_subscribe_namespace(s: Seq<u8>) -> SpecParse<SubscribeNamespaceView> {
    match spec_parse_varint(s) {
        Err(k) => Err(k),
        Ok((request_id, n1)) => match spec_parse_namespace_prefix(s.skip(n1 as int)) {
            Err(k) => Err(k),
            Ok((track_namespace_prefix, n2)) => match spec_parse_varint(s.skip((n1 + n2) as int)) {
                Err(k) => Err(k),
                Ok((code, n3)) => match SubscribeOption::spec_from_code(code) {
                    Err(k) => Err(k),
                    Ok(subscribe_options) => match spec_parse_params(s.skip((n1 + n2 + n3) as int)) {
                        Err(k) => Err(k),
                        Ok((parameters, n4)) => Ok((
                            SubscribeNamespaceView { request_id, track_namespace_prefix, subscribe_options, parameters },
                            n1 + n2 + n3 + n4,
                        )),
                    },
                },
            },
        },
    }
}

impl Encode for SubscribeNamespace {
    open spec fn spec_encode(v: SubscribeNamespaceView) -> core::result::Result<Seq<u8>, ErrorKind> {
        spec_encode_subscribe_namespace(v)
    }

    fn encode(&self, buf: &mut Vec<u8>) -> (r: Result<()>) {
        match write_varint(buf, self.request_id) {
            Ok(()) => {},
            Err(e) => return Err(e),
        }
        match self.track_namespace_prefix.encode(buf) {
            Ok(()) => {},
            Err(e) => return Err(e),
        }
        match write_varint(buf, self.subscribe_options.as_u64()) {
            Ok(()) => {},
            Err(e) => return Err(e),
        }
        match self.parameters.encode(buf) {
            Ok(()) => {},
            Err(e) => return Err(e),
        }
        assert(buf@ =~= old(buf)@ + spec_encode_subscribe_namespace(self@)->Ok_0);
        Ok(())
    }
}

impl Decode for SubscribeNamespace {
    open spec fn spec_parse(s: Seq<u8>) -> SpecParse<SubscribeNamespaceView> {
        spec_parse_subscribe_namespace(s)
    }

    fn decode(cursor: &mut Cursor<'_>) -> (r: Result<Self>) {
        let ghost s = cursor.rest();
        let request_id = match cursor.read_varint() {
            Ok(v) => v,
            Err(e) => return Err(e),
        };
        let ghost n1 = spec_parse_varint(s)->Ok_0.1;
        let track_namespace_prefix = match TrackNamespacePrefix::decode(cursor) {
            Ok(v) => v,
            Err(e) => return Err(e),
        };
        let ghost n2 = spec_parse_namespace_prefix(s.skip(n1 as int))->Ok_0.1;
        assert(s.skip(n1 as int).skip(n2 as int) =~= s.skip((n1 + n2) as int));
        let code = match cursor.read_varint() {
            Ok(v) => v,
            Err(e) => return Err(e),
        };
        let ghost n3 = spec_parse_varint(s.skip((n1 + n2) as int))->Ok_0.1;
        assert(s.skip((n1 + n2) as int).skip(n3 as int) =~= s.skip((n1 + n2 + n3) as int));
        let subscribe_options = match SubscribeOption::from_u64(code) {
            Ok(o) => o,
            Err(e) => return Err(e),
        };
        let parameters = match Parameters::decode(cursor) {
            Ok(v) => v,
            Err(e) => return Err(e),
        };
        proof {
            let n4 = spec_parse_params(s.skip((n1 + n2 + n3) as int))->Ok_0.1;
            assert(s.skip((n1 + n2 + n3) as int).skip(n4 as int) =~= s.skip((n1 + n2 + n3 + n4) as int));
        }
        Ok(SubscribeNamespace { request_id, track_namespace_prefix, subscribe_options, parameters })
    }
}


/// A PUBLISH_NAMESPACE whose namespace the decoder accepts reads back as written, its parameters in key order.
#[verifier::spinoff_prover]
#[verifier::rlimit(80)]
pub proof fn law_publish_namespace_roundtrip(v: PublishNamespaceView)
    requires
        spec_encode_publish_namespace(v) is Ok,
        spec_decodable_namespace(v.track_namespace),
    ensures
        spec_parse_publish_namespace(spec_encode_publish_namespace(v)->Ok_0) == Ok::<(PublishNamespaceView, nat), ErrorKind>((
            PublishNamespaceView { request_id: v.request_id, track_namespace: v.track_namespace, parameters: spec_sort_kvs(v.parameters) },
            spec_encode_publish_namespace(v)->Ok_0.len(),
        )),
{
    let e1 = spec_encode_varint(v.request_id)->Ok_0;
    let e2 = spec_encode_namespace(v.track_namespace)->Ok_0;
    let e3 = spec_encode_params(v.parameters)->Ok_0;
    let s = spec_encode_publish_namespace(v)->Ok_0;
    assert(s =~= e1 + (e2 + e3));
    lemma_varint_parse_roundtrip(v.request_id, e2 + e3);
    assert(s.skip((e1.len()) as int) =~= e2 + e3);
    law_namespace_roundtrip(v.track_namespace, e3);
    assert(s.skip((e1.len() + e2.len()) as int) =~= e3);
    law_params_roundtrip(v.parameters, Seq::<u8>::empty());
    assert(e3 + Seq::<u8>::empty() =~= e3);
}

/// A PUBLISH_NAMESPACE_CANCEL reads back as written.
#[verifier::spinoff_prover]
#[verifier::rlimit(80)]
pub proof fn law_publish_namespace_cancel_roundtrip(v: PublishNamespaceCancelView)
    requires
        spec_encode_publish_namespace_cancel(v) is Ok,
    ensures
        spec_parse_publish_namespace_cancel(spec_encode_publish_namespace_cancel(v)->Ok_0) == Ok::<(PublishNamespaceCancelView, nat), ErrorKind>((
            PublishNamespaceCancelView { request_id: v.request_id, error_code: v.error_code, error_reason: v.error_reason },
            spec_encode_publish_namespace_cancel(v)->Ok_0.len(),
        )),
{
    let e1 = spec_encode_varint(v.request_id)->Ok_0;
    let e2 = spec_encode_varint(v.error_code)->Ok_0;
    let e3 = spec_encode_reason(v.error_reason)->Ok_0;
    let s = spec_encode_publish_namespace_cancel(v)->Ok_0;
    assert(s =~= e1 + (e2 + e3));
    lemma_varint_parse_roundtrip(v.request_id, e2 + e3);
    assert(s.skip((e1.len()) as int) =~= e2 + e3);
    lemma_varint_parse_roundtrip(v.error_code, e3);
    assert(s.skip((e1.len() + e2.len()) as int) =~= e3);
    law_reason_roundtrip(v.error_reason, Seq::<u8>::empty());
    assert(e3 + Seq::<u8>::empty() =~= e3);
}

/// A SUBSCRIBE_NAMESPACE whose prefix the decoder accepts reads back as
/// written, its parameters in key order.
#[verifier::spinoff_prover]
#[verifier::rlimit(80)]
pub proof fn law_subscribe_namespace_roundtrip(v: SubscribeNamespaceView)
    requires
        spec_encode_subscribe_namespace(v) is Ok,
        spec_decodable_prefix(v.track_namespace_prefix),
    ensures
        spec_parse_subscribe_namespace(spec_encode_subscribe_namespace(v)->Ok_0)
            == Ok::<(SubscribeNamespaceView, nat), ErrorKind>((
            SubscribeNamespaceView {
                request_id: v.request_id,
                track_namespace_prefix: v.track_namespace_prefix,
                subscribe_options: v.subscribe_options,
                parameters: spec_sort_kvs(v.parameters),
            },
            spec_encode_subscribe_namespace(v)->Ok_0.len(),
        )),
{
    let e1 = spec_encode_varint(v.request_id)->Ok_0;
    let e2 = spec_encode_namespace(v.track_namespace_prefix)->Ok_0;
    let e3 = spec_encode_varint(v.subscribe_options.spec_code())->Ok_0;
    let e4 = spec_encode_params(v.parameters)->Ok_0;
    let s = spec_encode_subscribe_namespace(v)->Ok_0;
    assert(s =~= e1 + (e2 + (e3 + e4)));
    lemma_varint_parse_roundtrip(v.request_id, e2 + (e3 + e4));
    assert(s.skip(e1.len() as int) =~= e2 + (e3 + e4));
    law_namespace_prefix_roundtrip(v.track_namespace_prefix, e3 + e4);
    assert(s.skip((e1.len() + e2.len()) as int) =~= e3 + e4);
    lemma_varint_parse_roundtrip(v.subscribe_options.spec_code(), e4);
    assert(SubscribeOption::spec_from_code(v.subscribe_options.spec_code())
        == Ok::<SubscribeOption, ErrorKind>(v.subscribe_options));
    assert(s.skip((e1.len() + e2.len() + e3.len()) as int) =~= e4);
    law_params_roundtrip(v.parameters, Seq::<u8>::empty());
    assert(e4 + Seq::<u8>::empty() =~= e4);
}

} // verus!
