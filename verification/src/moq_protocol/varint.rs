//! QUIC variable-length integers appended to and read from byte buffers.
use vstd::prelude::*;
use crate::quic_varint::{spec_varint_len, spec_max_varint, spec_varint_bytes, spec_be_value, spec_prefix_len, spec_decode_varint};
use crate::moq_protocol::error::{Error, ErrorKind, Result};

verus! {

/// Maximum value representable as a QUIC varint.
pub const MAX_VARINT: u64 = 0x3FFF_FFFF_FFFF_FFFF;

/// Returns the number of bytes needed to encode `v` as a QUIC varint.
pub fn varint_len(v: u64) -> (n: usize)
    ensures
        n == spec_varint_len(v),
{
    if v <= 63 {
        1
    } else if v <= 16383 {
        2
    } else if v <= 1_073_741_823 {
        4
    } else {
        8
    }
}

/// Encoding of `v`, or the error that the encoder reports for it.
pub open spec fn spec_encode_varint(v: u64) -> core::result::Result<Seq<u8>, ErrorKind> {
    if v > spec_max_varint() {
        Err(ErrorKind::VarintOverflow)
    } else {
        Ok(spec_varint_bytes(v))
    }
}

/// Encode a varint and append it to `buf`.
pub fn encode_varint(buf: &mut Vec<u8>, v: u64) -> (r: Result<()>)
    ensures
        match spec_encode_varint(v) {
            Ok(b) => r is Ok && final(buf)@ == old(buf)@ + b,
            Err(k) => r matches Err(e) && e.kind() == k && final(buf)@ == old(buf)@,
        },
{
    if v > MAX_VARINT {
        return Err(Error::VarintOverflow);
    }
    let ghost b0 = buf@;
    let n = varint_len(v);
    if n == 1 {
        buf.push(v as u8);
    } else if n == 2 {
        buf.push(0x40u8 | ((v >> 8u64) as u8));
        buf.push(v as u8);
    } else if n == 4 {
        buf.push(0x80u8 | ((v >> 24u64) as u8));
        buf.push((v >> 16u64) as u8);
        buf.push((v >> 8u64) as u8);
        buf.push(v as u8);
    } else {
        buf.push(0xc0u8 | ((v >> 56u64) as u8));
        buf.push((v >> 48u64) as u8);
        buf.push((v >> 40u64) as u8);
        buf.push((v >> 32u64) as u8);
        buf.push((v >> 24u64) as u8);
        buf.push((v >> 16u64) as u8);
        buf.push((v >> 8u64) as u8);
        buf.push(v as u8);
    }
    assert(buf@ =~= b0 + spec_varint_bytes(v));
    Ok(())
}

/// Decoding of a varint at the start of `s`, with the decoder's errors.
pub open spec fn spec_parse_varint(s: Seq<u8>) -> core::result::Result<(u64, nat), ErrorKind> {
    match spec_decode_varint(s) {
        Some(p) => Ok(p),
        None => Err(ErrorKind::BufferTooShort),
    }
}

/// Exec computation of the big-endian value of the first `len` bytes.
pub(crate) fn be_value(buf: &[u8], len: usize) -> (v: u64)
    requires
        1 <= len <= 8,
        len <= buf@.len(),
    ensures
        v == spec_be_value(buf@, len as nat),
{
    let mut v: u64 = (buf[0] & 0x3fu8) as u64;
    let mut i: usize = 1;
    while i < len
        invariant
            1 <= i <= len,
            len <= 8,
            len <= buf@.len(),
            v == spec_be_value(buf@, i as nat),
        decreases len - i,
    {
        v = (v << 8u64) | (buf[i] as u64);
        i = i + 1;
    }
    v
}

/// Length announced by the first byte of a varint.
pub(crate) fn prefix_len(b0: u8) -> (n: usize)
    ensures
        n == spec_prefix_len(b0),
{
    let p = b0 >> 6u8;
    if p == 0 {
        1
    } else if p == 1 {
        2
    } else if p == 2 {
        4
    } else {
        8
    }
}

/// Decode a varint from the start of `buf`; returns `(value, bytes_consumed)`.
pub fn decode_varint(buf: &[u8]) -> (r: Result<(u64, usize)>)
    ensures
        match spec_parse_varint(buf@) {
            Ok((v, n)) => r == Ok::<(u64, usize), Error>((v, n as usize)),
            Err(k) => r matches Err(e) && e.kind() == k,
        },
{
    if buf.len() == 0 {
        return Err(Error::BufferTooShort);
    }
    let len = prefix_len(buf[0]);
    if buf.len() < len {
        return Err(Error::BufferTooShort);
    }
    let v = be_value(buf, len);
    Ok((v, len))
}

} // verus!
