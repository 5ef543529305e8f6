//! QUIC variable-length integers over slices, and an
//! incremental decoder that takes one byte at a time.
use vstd::prelude::*;
use crate::quic_varint::{
    spec_varint_len, spec_max_varint, spec_varint_bytes, spec_be_value, spec_prefix_len,
    spec_decode_varint, lemma_varint_bytes_len,
};
use crate::webtransport::error::{Error, ErrorKind, Result};

verus! {

/// Maximum value representable as a QUIC varint.
pub const MAX_VARINT: u64 = 0x3FFF_FFFF_FFFF_FFFF;

/// Number of bytes needed to encode `v`.
pub fn varint_len(v: u64) -> (n: usize)
    ensures
        n == spec_varint_len(v),
{
    if v <= 63 {
        1
    } else if v <= 16383 {
        2
    } else if v <= 1_073_741_823 {
        4
    } else {
        8
    }
}

/// Writes the encoding of `v` at the start of `buf`; returns its length.
pub fn encode(v: u64, buf: &mut [u8]) -> (r: Result<usize>)
    ensures
        final(buf)@.len() == old(buf)@.len(),
        v > spec_max_varint() ==> (r matches Err(e) && e.kind() == ErrorKind::VarintOverflow && final(buf)@ == old(buf)@),
        v <= spec_max_varint() && old(buf)@.len() < spec_varint_len(v)
            ==> (r matches Err(e) && e.kind() == ErrorKind::BufferTooShort && final(buf)@ == old(buf)@),
        v <= spec_max_varint() && old(buf)@.len() >= spec_varint_len(v) ==> r == Ok::<usize, Error>(spec_varint_len(v) as usize)
            && final(buf)@ == spec_varint_bytes(v) + old(buf)@.skip(spec_varint_len(v) as int),
{
    if v > MAX_VARINT {
        return Err(Error::VarintOverflow);
    }
    let len = varint_len(v);
    if buf.len() < len {
        return Err(Error::BufferTooShort);
    }
    if len == 1 {
        buf[0] = v as u8;
    } else if len == 2 {
        buf[0] = 0x40u8 | ((v >> 8u64) as u8);
        buf[1] = v as u8;
    } else if len == 4 {
        buf[0] = 0x80u8 | ((v >> 24u64) as u8);
        buf[1] = (v >> 16u64) as u8;
        buf[2] = (v >> 8u64) as u8;
        buf[3] = v as u8;
    } else {
        buf[0] = 0xc0u8 | ((v >> 56u64) as u8);
        buf[1] = (v >> 48u64) as u8;
        buf[2] = (v >> 40u64) as u8;
        buf[3] = (v >> 32u64) as u8;
        buf[4] = (v >> 24u64) as u8;
        buf[5] = (v >> 16u64) as u8;
        buf[6] = (v >> 8u64) as u8;
        buf[7] = v as u8;
    }
    assert(buf@ =~= spec_varint_bytes(v) + old(buf)@.skip(len as int));
    Ok(len)
}

/// The encoding of `v` in a new vector.
pub fn encode_vec(v: u64) -> (r: Result<Vec<u8>>)
    ensures
        v > spec_max_varint() ==> (r matches Err(e) && e.kind() == ErrorKind::VarintOverflow),
        v <= spec_max_varint() ==> (r matches Ok(b) && b@ == spec_varint_bytes(v)),
{
    let mut buf: Vec<u8> = Vec::new();
    let n = varint_len(v);
    let mut i: usize = 0;
    while i < n
        invariant
            i <= n,
            buf@.len() == i,
        decreases n - i,
    {
        buf.push(0u8);
        i = i + 1;
    }
    match encode(v, buf.as_mut_slice()) {
        Ok(_) => {
            proof {
                lemma_varint_bytes_len(v);
                assert(buf@ =~= spec_varint_bytes(v));
            }
            Ok(buf)
        },
        Err(e) => Err(e),
    }
}

/// Decodes a varint from the start of `buf`: its value and length.
pub fn decode(buf: &[u8]) -> (r: Result<(u64, usize)>)
    ensures
        match spec_decode_varint(buf@) {
            Some((v, n)) => r == Ok::<(u64, usize), Error>((v, n as usize)),
            None => r matches Err(e) && e.kind() == ErrorKind::BufferTooShort,
        },
{
    if buf.len() == 0 {
        return Err(Error::BufferTooShort);
    }
    let len = crate::moq_protocol::varint::prefix_len(buf[0]);
    if buf.len() < len {
        return Err(Error::BufferTooShort);
    }
    let v = crate::moq_protocol::varint::be_value(buf, len);
    Ok((v, len))
}

/// Incremental decoder of one varint.
#[derive(Clone)]
pub struct VarintDecoder {
    /// Value accumulated so far.
    value: u64,
    /// Expected length in bytes (0 until the first byte).
    expected_len: usize,
    /// Bytes consumed so far.
    consumed: usize,
    /// The bytes fed so far.
    fed: Ghost<Seq<u8>>,
}

impl VarintDecoder {
    /// The decoder's invariant: the counters and the value agree with the
    /// bytes fed.
    pub closed spec fn wf(&self) -> bool {
        &&& self.consumed == self.fed@.len()
        &&& self.consumed == 0 ==> self.expected_len == 0
        &&& self.consumed > 0 ==> self.expected_len == spec_prefix_len(self.fed@[0])
            && self.value == spec_be_value(self.fed@, self.consumed as nat)
    }

    /// The bytes fed since the last reset.
    pub closed spec fn fed(&self) -> Seq<u8> {
        self.fed@
    }

    pub fn new() -> (d: Self)
        ensures
            d.wf(),
            d.fed().len() == 0,
    {
        VarintDecoder { value: 0, expected_len: 0, consumed: 0, fed: Ghost(Seq::empty()) }
    }

    /// Feeds the next byte; gives the value and its length once the bytes
    /// fed make up exactly one varint.
    pub fn feed(&mut self, byte: u8) -> (r: Option<(u64, usize)>)
        requires
            old(self).wf(),
            old(self).fed().len() < usize::MAX,
        ensures
            final(self).wf(),
            final(self).fed() == old(self).fed().push(byte),
            final(self).fed().len() == spec_prefix_len(final(self).fed()[0])
                ==> r == Some((spec_be_value(final(self).fed(), final(self).fed().len()), final(self).fed().len() as usize)),
            final(self).fed().len() != spec_prefix_len(final(self).fed()[0]) ==> r is None,
    {
        let ghost new_fed = self.fed@.push(byte);
        if self.consumed == 0 {
            let len = crate::moq_protocol::varint::prefix_len(byte);
            self.expected_len = len;
            self.value = (byte as u64) & 0x3fu64;
            assert(new_fed[0] == byte);
        } else {
            self.value = (self.value << 8u64) | (byte as u64);
            assert(new_fed[0] == self.fed@[0]);
            proof {
                assert(spec_be_value(new_fed, (self.consumed + 1) as nat)
                    == (spec_be_value(new_fed, self.consumed as nat) << 8u64) | (new_fed[self.consumed as int] as u64));
                lemma_be_value_push(self.fed@, byte, self.consumed as nat);
            }
        }
        self.consumed = self.consumed + 1;
        self.fed = Ghost(new_fed);
        if self.consumed == self.expected_len {
            Some((self.value, self.consumed))
        } else {
            None
        }
    }

    /// Forgets the bytes fed so far.
    pub fn reset(&mut self)
        ensures
            final(self).wf(),
            final(self).fed().len() == 0,
    {
        self.value = 0;
        self.expected_len = 0;
        self.consumed = 0;
        self.fed = Ghost(Seq::empty());
    }

    /// Whether no byte was fed since the last reset.
    pub fn is_fresh(&self) -> (r: bool)
        requires
            self.wf(),
        ensures
            r == (self.fed().len() == 0),
    {
        self.consumed == 0
    }
}

/// Appending a byte does not change the value of the bytes before it.
proof fn lemma_be_value_push(s: Seq<u8>, b: u8, n: nat)
    requires
        1 <= n <= s.len(),
    ensures
        spec_be_value(s.push(b), n) == spec_be_value(s, n),
    decreases n,
{
    if n > 1 {
        lemma_be_value_push(s, b, (n - 1) as nat);
    }
    assert(s.push(b)[0] == s[0]);
    assert(s.push(b)[n - 1] == s[n - 1]);
}

/// A varint fed byte by byte is recognised exactly when all of its bytes
/// have been fed, with the value the one-shot decoder gives.
pub proof fn law_incremental_matches_decode(s: Seq<u8>)
    requires
        spec_decode_varint(s) is Some,
        s.len() == spec_decode_varint(s).unwrap().1,
    ensures
        s.len() == spec_prefix_len(s[0]),
        spec_be_value(s, s.len()) == spec_decode_varint(s).unwrap().0,
{
}

} // verus!
