//! Cursor over a byte slice, the Encode/Decode traits, and buffer writers.
//!
//! Every reader and decoder is specified by a parser over the unread
//! bytes (`Cursor::rest`): a function from bytes to either a value and the
//! number of bytes it takes, or the kind of error the reader reports.
use vstd::prelude::*;
use crate::quic_varint::{spec_decode_varint, spec_varint_len, spec_varint_bytes, lemma_decode_varint_bound};
use crate::moq_protocol::error::{Error, ErrorKind, Result};
use crate::moq_protocol::varint::{decode_varint, encode_varint, spec_parse_varint, spec_encode_varint, varint_len};

verus! {

/// Result of a parser on bytes: the parsed view and the bytes it takes.
pub type SpecParse<V> = core::result::Result<(V, nat), ErrorKind>;

/// A cursor for reading structured data from a byte slice.
#[derive(Debug)]
pub struct Cursor<'a> {
    buf: &'a [u8],
    pos: usize,
}

impl<'a> Cursor<'a> {
    #[verifier::type_invariant]
    closed spec fn inv(self) -> bool {
        self.pos <= self.buf@.len()
    }

    /// The whole underlying buffer.
    pub closed spec fn data(self) -> Seq<u8> {
        self.buf@
    }

    /// Bytes consumed so far.
    pub closed spec fn pos(self) -> nat {
        self.pos as nat
    }

    /// The unread bytes.
    pub open spec fn rest(self) -> Seq<u8> {
        self.data().subrange(self.pos() as int, self.data().len() as int)
    }

    /// Create a new cursor over `buf`.
    pub fn new(buf: &'a [u8]) -> (c: Self)
        ensures
            c.data() == buf@,
            c.pos() == 0,
            c.rest() == buf@,
    {
        let c = Cursor { buf, pos: 0 };
        assert(c.rest() =~= buf@);
        c
    }

    /// Remaining unread bytes.
    pub fn remaining(&self) -> (n: usize)
        ensures
            n == self.rest().len(),
            self.pos() + n == self.data().len(),
    {
        proof {
            use_type_invariant(self);
        }
        self.buf.len() - self.pos
    }

    /// Current read position (bytes consumed so far).
    pub fn position(&self) -> (n: usize)
        ensures
            n == self.pos(),
    {
        self.pos
    }

    /// The full underlying buffer.
    pub fn buffer(&self) -> (b: &'a [u8])
        ensures
            b@ == self.data(),
    {
        self.buf
    }

    /// The unread portion of the buffer.
    pub fn remaining_bytes(&self) -> (b: &'a [u8])
        ensures
            b@ == self.rest(),
    {
        proof {
            use_type_invariant(self);
        }
        &self.buf[self.pos..self.buf.len()]
    }

    /// Advance by `n` bytes.
    fn advance(&mut self, n: usize)
        requires
            n <= old(self).rest().len(),
        ensures
            final(self).data() == old(self).data(),
            final(self).pos() == old(self).pos() + n,
            final(self).rest() == old(self).rest().skip(n as int),
    {
        proof {
            use_type_invariant(&*self);
        }
        let total = self.buf.len();
        assert(self.rest().len() == total - self.pos);
        self.pos = self.pos + n;
        assert(self.rest() =~= old(self).rest().skip(n as int));
    }

    /// Read a single byte.
    pub fn read_u8(&mut self) -> (r: Result<u8>)
        ensures
            final(self).data() == old(self).data(),
            match spec_parse_u8(old(self).rest()) {
                Ok((v, n)) => r == Ok::<u8, Error>(v) && final(self).pos() == old(self).pos() + n
                    && final(self).rest() == old(self).rest().skip(n as int),
                Err(k) => r matches Err(e) && e.kind() == k && final(self).pos() == old(self).pos(),
            },
    {
        if self.remaining() < 1 {
            return Err(Error::BufferTooShort);
        }
        let v = self.buf[self.pos];
        self.advance(1);
        Ok(v)
    }

    /// Read a big-endian u16 (2 bytes).
    pub fn read_u16(&mut self) -> (r: Result<u16>)
        ensures
            final(self).data() == old(self).data(),
            match spec_parse_u16(old(self).rest()) {
                Ok((v, n)) => r == Ok::<u16, Error>(v) && final(self).pos() == old(self).pos() + n
                    && final(self).rest() == old(self).rest().skip(n as int),
                Err(k) => r matches Err(e) && e.kind() == k && final(self).pos() == old(self).pos(),
            },
    {
        if self.remaining() < 2 {
            return Err(Error::BufferTooShort);
        }
        let hi = self.buf[self.pos];
        let lo = self.buf[self.pos + 1];
        let v = ((hi as u16) << 8u16) | (lo as u16);
        self.advance(2);
        Ok(v)
    }

    /// Read a QUIC variable-length integer.
    pub fn read_varint(&mut self) -> (r: Result<u64>)
        ensures
            final(self).data() == old(self).data(),
            match spec_parse_varint(old(self).rest()) {
                Ok((v, n)) => r == Ok::<u64, Error>(v) && final(self).pos() == old(self).pos() + n
                    && final(self).rest() == old(self).rest().skip(n as int)
                    && n <= old(self).rest().len(),
                Err(k) => r matches Err(e) && e.kind() == k && final(self).pos() == old(self).pos(),
            },
    {
        let rest = self.remaining_bytes();
        match decode_varint(rest) {
            Ok((v, n)) => {
                proof {
                    lemma_decode_varint_bound(rest@);
                }
                self.advance(n);
                Ok(v)
            },
            Err(e) => Err(e),
        }
    }

    /// Read exactly `len` bytes, returning a sub-slice.
    pub fn read_bytes(&mut self, len: usize) -> (r: Result<&'a [u8]>)
        ensures
            final(self).data() == old(self).data(),
            match spec_parse_bytes(old(self).rest(), len as nat) {
                Ok((v, n)) => r matches Ok(b) && b@ == v && final(self).pos() == old(self).pos() + n
                    && final(self).rest() == old(self).rest().skip(n as int),
                Err(k) => r matches Err(e) && e.kind() == k && final(self).pos() == old(self).pos(),
            },
    {
        if self.remaining() < len {
            return Err(Error::BufferTooShort);
        }
        proof {
            use_type_invariant(&*self);
        }
        let total = self.buf.len();
        assert(self.rest().len() == total - self.pos);
        let slice = &self.buf[self.pos..self.pos + len];
        assert(slice@ =~= old(self).rest().take(len as int));
        self.advance(len);
        Ok(slice)
    }

    /// Read a length-prefixed byte string (varint length + bytes).
    pub fn read_prefixed_bytes(&mut self) -> (r: Result<&'a [u8]>)
        ensures
            final(self).data() == old(self).data(),
            match spec_parse_prefixed(old(self).rest()) {
                Ok((v, n)) => r matches Ok(b) && b@ == v && final(self).pos() == old(self).pos() + n
                    && final(self).rest() == old(self).rest().skip(n as int)
                    && n <= old(self).rest().len(),
                Err(k) => r matches Err(e) && e.kind() == k,
            },
    {
        let ghost r0 = self.rest();
        let len = match self.read_varint() {
            Ok(l) => l,
            Err(e) => return Err(e),
        };
        let avail = self.remaining();
        if (avail as u64) < len {
            return Err(Error::BufferTooShort);
        }
        let r = self.read_bytes(len as usize);
        proof {
            let n1 = spec_parse_varint(r0)->Ok_0.1;
            assert(r0.skip(n1 as int).skip(len as int) =~= r0.skip((n1 + len) as int));
        }
        r
    }

    /// Create a sub-cursor limited to the next `len` bytes and advance past them.
    pub fn split(&mut self, len: usize) -> (r: Result<Cursor<'a>>)
        ensures
            final(self).data() == old(self).data(),
            match spec_parse_bytes(old(self).rest(), len as nat) {
                Ok((v, n)) => r matches Ok(sub) && sub.data() == v && sub.pos() == 0 && sub.rest() == v
                    && final(self).pos() == old(self).pos() + n
                    && final(self).rest() == old(self).rest().skip(n as int),
                Err(k) => r matches Err(e) && e.kind() == k && final(self).pos() == old(self).pos(),
            },
    {
        match self.read_bytes(len) {
            Ok(b) => Ok(Cursor::new(b)),
            Err(e) => Err(e),
        }
    }
}

/// One byte.
pub open spec fn spec_parse_u8(s: Seq<u8>) -> SpecParse<u8> {
    if s.len() < 1 {
        Err(ErrorKind::BufferTooShort)
    } else {
        Ok((s[0], 1))
    }
}

/// Big-endian 16-bit value of two bytes.
pub open spec fn spec_be_u16(hi: u8, lo: u8) -> u16 {
    ((hi as u16) << 8u16) | (lo as u16)
}

/// Two bytes, big-endian.
pub open spec fn spec_parse_u16(s: Seq<u8>) -> SpecParse<u16> {
    if s.len() < 2 {
        Err(ErrorKind::BufferTooShort)
    } else {
        Ok((spec_be_u16(s[0], s[1]), 2))
    }
}

/// Exactly `len` bytes.
pub open spec fn spec_parse_bytes(s: Seq<u8>, len: nat) -> SpecParse<Seq<u8>> {
    if s.len() < len {
        Err(ErrorKind::BufferTooShort)
    } else {
        Ok((s.take(len as int), len))
    }
}

/// A varint length followed by that many bytes.
pub open spec fn spec_parse_prefixed(s: Seq<u8>) -> SpecParse<Seq<u8>> {
    match spec_parse_varint(s) {
        Err(k) => Err(k),
        Ok((len, n)) => match spec_parse_bytes(s.skip(n as int), len as nat) {
            Err(k) => Err(k),
            Ok((b, m)) => Ok((b, n + m)),
        },
    }
}

/// Encoding of a length-prefixed byte string.
pub open spec fn spec_encode_prefixed(b: Seq<u8>) -> core::result::Result<Seq<u8>, ErrorKind> {
    if b.len() > crate::quic_varint::spec_max_varint() {
        Err(ErrorKind::VarintOverflow)
    } else {
        match spec_encode_varint(b.len() as u64) {
        Err(k) => Err(k),
        Ok(l) => Ok(l + b),
        }
    }
}

/// The varint decoder takes at least one and at most all of the bytes.
pub proof fn lemma_parse_varint_len(s: Seq<u8>)
    ensures
        spec_parse_varint(s) matches Ok((v, n)) ==> 1 <= n <= s.len() && n <= 8,
{
    if spec_decode_varint(s) is Some {
        lemma_decode_varint_bound(s);
    }
}

/// `(a + b).skip(a.len()) == b`, the step every sequential parser takes.
pub proof fn lemma_skip_concat(a: Seq<u8>, b: Seq<u8>)
    ensures
        (a + b).skip(a.len() as int) == b,
{
    assert((a + b).skip(a.len() as int) =~= b);
}

/// Reading a varint back from its encoding.
pub proof fn lemma_varint_parse_roundtrip(v: u64, rest: Seq<u8>)
    requires
        spec_encode_varint(v) is Ok,
    ensures
        spec_parse_varint(spec_encode_varint(v)->Ok_0 + rest) == Ok::<(u64, nat), ErrorKind>((v, spec_encode_varint(v)->Ok_0.len())),
        spec_encode_varint(v)->Ok_0.len() == spec_varint_len(v),
        (spec_encode_varint(v)->Ok_0 + rest).skip(spec_encode_varint(v)->Ok_0.len() as int) == rest,
{
    crate::quic_varint::lemma_varint_roundtrip(v, rest);
    crate::quic_varint::lemma_varint_bytes_len(v);
    lemma_skip_concat(spec_varint_bytes(v), rest);
}

/// Reading a length-prefixed byte string back from its encoding.
pub proof fn lemma_prefixed_roundtrip(b: Seq<u8>, rest: Seq<u8>)
    requires
        spec_encode_prefixed(b) is Ok,
    ensures
        spec_parse_prefixed(spec_encode_prefixed(b)->Ok_0 + rest) == Ok::<(Seq<u8>, nat), ErrorKind>((b, spec_encode_prefixed(b)->Ok_0.len())),
        (spec_encode_prefixed(b)->Ok_0 + rest).skip(spec_encode_prefixed(b)->Ok_0.len() as int) == rest,
{
    let l = spec_encode_varint(b.len() as u64)->Ok_0;
    let s = spec_encode_prefixed(b)->Ok_0 + rest;
    assert(s =~= l + (b + rest));
    lemma_varint_parse_roundtrip(b.len() as u64, b + rest);
    assert((b + rest).take(b.len() as int) =~= b);
    lemma_skip_concat(l + b, rest);
}

/// Trait for types that can be encoded to a byte buffer.
pub trait Encode: View + Sized {
    /// The bytes `encode` appends for a value, or the error it reports.
    spec fn spec_encode(v: Self::V) -> core::result::Result<Seq<u8>, ErrorKind>;

    /// Encode this value, appending bytes to `buf`.
    fn encode(&self, buf: &mut Vec<u8>) -> (r: Result<()>)
        ensures
            match Self::spec_encode(self@) {
                Ok(b) => r is Ok && final(buf)@ == old(buf)@ + b,
                Err(k) => r matches Err(e) && e.kind() == k,
            },
    ;

    /// Convenience: encode to a new `Vec<u8>`.
    fn encode_to_vec(&self) -> (r: Result<Vec<u8>>)
        ensures
            match Self::spec_encode(self@) {
                Ok(b) => r matches Ok(v) && v@ == b,
                Err(k) => r matches Err(e) && e.kind() == k,
            },
    {
        let mut buf: Vec<u8> = Vec::new();
        match self.encode(&mut buf) {
            Ok(()) => {
                assert(buf@ =~= Seq::<u8>::empty() + Self::spec_encode(self@)->Ok_0);
                Ok(buf)
            },
            Err(e) => Err(e),
        }
    }
}

/// Trait for types that can be decoded from a byte cursor.
pub trait Decode: View + Sized {
    /// The parser `decode` follows, over the unread bytes.
    spec fn spec_parse(s: Seq<u8>) -> SpecParse<Self::V>;

    /// Decode a value from the cursor, advancing its position.
    fn decode(cursor: &mut Cursor<'_>) -> (r: Result<Self>)
        ensures
            final(cursor).data() == old(cursor).data(),
            match Self::spec_parse(old(cursor).rest()) {
                Ok((v, n)) => r matches Ok(x) && x@ == v && n <= old(cursor).rest().len()
                    && final(cursor).pos() == old(cursor).pos() + n
                    && final(cursor).rest() == old(cursor).rest().skip(n as int),
                Err(k) => r matches Err(e) && e.kind() == k,
            },
    ;
}

/// Write a single byte.
pub fn write_u8(buf: &mut Vec<u8>, v: u8)
    ensures
        final(buf)@ == old(buf)@.push(v),
{
    buf.push(v);
}

/// Big-endian bytes of a u16.
pub open spec fn spec_u16_bytes(v: u16) -> Seq<u8> {
    seq![(v >> 8u16) as u8, v as u8]
}

/// Write a big-endian u16.
pub fn write_u16(buf: &mut Vec<u8>, v: u16)
    ensures
        final(buf)@ == old(buf)@ + spec_u16_bytes(v),
{
    buf.push((v >> 8u16) as u8);
    buf.push(v as u8);
    assert(buf@ =~= old(buf)@ + spec_u16_bytes(v));
}

/// Reading a u16 back from its big-endian bytes.
pub proof fn lemma_u16_roundtrip(v: u16, rest: Seq<u8>)
    ensures
        spec_parse_u16(spec_u16_bytes(v) + rest) == Ok::<(u16, nat), ErrorKind>((v, 2)),
        (spec_u16_bytes(v) + rest).skip(2) == rest,
{
    let s = spec_u16_bytes(v) + rest;
    let hi = (v >> 8u16) as u8;
    let lo = v as u8;
    assert(s[0] == hi && s[1] == lo);
    assert(((hi as u16) << 8u16) | (lo as u16) == v) by (bit_vector)
        requires hi == (v >> 8u16) as u8, lo == v as u8;
    lemma_skip_concat(spec_u16_bytes(v), rest);
}

/// Write a QUIC variable-length integer.
pub fn write_varint(buf: &mut Vec<u8>, v: u64) -> (r: Result<()>)
    ensures
        match spec_encode_varint(v) {
            Ok(b) => r is Ok && final(buf)@ == old(buf)@ + b,
            Err(k) => r matches Err(e) && e.kind() == k && final(buf)@ == old(buf)@,
        },
{
    encode_varint(buf, v)
}

/// Write raw bytes.
pub fn write_bytes(buf: &mut Vec<u8>, bytes: &[u8])
    ensures
        final(buf)@ == old(buf)@ + bytes@,
{
    let mut i: usize = 0;
    while i < bytes.len()
        invariant
            i <= bytes@.len(),
            buf@ == old(buf)@ + bytes@.take(i as int),
        decreases bytes@.len() - i,
    {
        buf.push(bytes[i]);
        i = i + 1;
        assert(buf@ =~= old(buf)@ + bytes@.take(i as int));
    }
    assert(bytes@.take(i as int) =~= bytes@);
}

/// Write a length-prefixed byte string (varint length + bytes).
pub fn write_prefixed_bytes(buf: &mut Vec<u8>, bytes: &[u8]) -> (r: Result<()>)
    ensures
        match spec_encode_prefixed(bytes@) {
            Ok(b) => r is Ok && final(buf)@ == old(buf)@ + b,
            Err(k) => r matches Err(e) && e.kind() == k && final(buf)@ == old(buf)@,
        },
{
    match write_varint(buf, bytes.len() as u64) {
        Ok(()) => {},
        Err(e) => return Err(e),
    }
    let ghost mid = buf@;
    write_bytes(buf, bytes);
    assert(buf@ =~= old(buf)@ + spec_encode_prefixed(bytes@)->Ok_0);
    Ok(())
}

/// Compute the encoded size of a varint.
pub fn encoded_varint_len(v: u64) -> (n: usize)
    ensures
        n == spec_varint_len(v),
{
    varint_len(v)
}

/// Skipping `a` bytes then `b` bytes is skipping `a + b` bytes.
pub proof fn lemma_skip_skip(s: Seq<u8>, a: nat, b: nat)
    requires
        a + b <= s.len(),
    ensures
        s.skip(a as int).skip(b as int) == s.skip((a + b) as int),
{
    assert(s.skip(a as int).skip(b as int) =~= s.skip((a + b) as int));
}

} // verus!
