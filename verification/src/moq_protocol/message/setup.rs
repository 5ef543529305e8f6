//! CLIENT_SETUP and SERVER_SETUP: a parameter list each.
use vstd::prelude::*;
use crate::moq_protocol::codec::{Cursor, Decode, Encode, SpecParse};
use crate::moq_protocol::error::{ErrorKind, Result};
use crate::moq_protocol::params::{Parameters, spec_encode_params, spec_parse_params};
use crate::moq_protocol::types::KvSpec;

verus! {

#[derive(Debug, Clone, PartialEq, Eq)]
pub struct ClientSetup {
    pub parameters: Parameters,
}

impl View for ClientSetup {
    type V = Seq<KvSpec>;

    open spec fn view(&self) -> Seq<KvSpec> {
        self.parameters@
    }
}

impl Encode for ClientSetup {
    open spec fn spec_encode(v: Seq<KvSpec>) -> core::result::Result<Seq<u8>, ErrorKind> {
        spec_encode_params(v)
    }

    fn encode(&self, buf: &mut Vec<u8>) -> (r: Result<()>) {
        self.parameters.encode(buf)
    }
}

impl Decode for ClientSetup {
    open spec fn spec_parse(s: Seq<u8>) -> SpecParse<Seq<KvSpec>> {
        spec_parse_params(s)
    }

    fn decode(cursor: &mut Cursor<'_>) -> (r: Result<Self>) {
        match Parameters::decode(cursor) {
            Ok(parameters) => Ok(ClientSetup { parameters }),
            Err(e) => Err(e),
        }
    }
}

#[derive(Debug, Clone, PartialEq, Eq)]
pub struct ServerSetup {
    pub parameters: Parameters,
}

impl View for ServerSetup {
    type V = Seq<KvSpec>;

    open spec fn view(&self) -> Seq<KvSpec> {
        self.parameters@
    }
}

impl Encode for ServerSetup {
    open spec fn spec_encode(v: Seq<KvSpec>) -> core::result::Result<Seq<u8>, ErrorKind> {
        spec_encode_params(v)
    }

    fn encode(&self, buf: &mut Vec<u8>) -> (r: Result<()>) {
        self.parameters.encode(buf)
    }
}

impl Decode for ServerSetup {
    open spec fn spec_parse(s: Seq<u8>) -> SpecParse<Seq<KvSpec>> {
        spec_parse_params(s)
    }

    fn decode(cursor: &mut Cursor<'_>) -> (r: Result<Self>) {
        match Parameters::decode(cursor) {
            Ok(parameters) => Ok(ServerSetup { parameters }),
            Err(e) => Err(e),
        }
    }
}

} // verus!
