//! The QUIC variable-length integer wire format, as a
//! mathematical model shared by every encoder and decoder of the crate.
//!
//! | 2MSB | Length | Usable Bits | Max Value              |
//! |------|--------|-------------|------------------------|
//! | 00   | 1      | 6           | 63                     |
//! | 01   | 2      | 14          | 16383                  |
//! | 10   | 4      | 30          | 1073741823             |
//! | 11   | 8      | 62          | 4611686018427387903    |
use vstd::prelude::*;

verus! {

/// Largest value a QUIC varint can carry: 2^62 - 1.
pub open spec fn spec_max_varint() -> u64 {
    0x3FFF_FFFF_FFFF_FFFFu64
}

/// Number of bytes of the shortest encoding of `v`.
pub open spec fn spec_varint_len(v: u64) -> nat {
    if v <= 63 {
        1
    } else if v <= 16383 {
        2
    } else if v <= 1_073_741_823 {
        4
    } else {
        8
    }
}

/// The shortest encoding of `v` (meaningful for `v <= spec_max_varint()`).
pub open spec fn spec_varint_bytes(v: u64) -> Seq<u8> {
    if v <= 63 {
        seq![v as u8]
    } else if v <= 16383 {
        seq![0x40u8 | ((v >> 8u64) as u8), v as u8]
    } else if v <= 1_073_741_823 {
        seq![0x80u8 | ((v >> 24u64) as u8), (v >> 16u64) as u8, (v >> 8u64) as u8, v as u8]
    } else {
        seq![
            0xc0u8 | ((v >> 56u64) as u8),
            (v >> 48u64) as u8,
            (v >> 40u64) as u8,
            (v >> 32u64) as u8,
            (v >> 24u64) as u8,
            (v >> 16u64) as u8,
            (v >> 8u64) as u8,
            v as u8,
        ]
    }
}

/// Length announced by the two high bits of the first byte.
pub open spec fn spec_prefix_len(b0: u8) -> nat {
    let p = b0 >> 6u8;
    if p == 0 {
        1
    } else if p == 1 {
        2
    } else if p == 2 {
        4
    } else {
        8
    }
}

/// Big-endian value of the first `n` bytes of `s`, the two length bits
/// of the first byte masked off.
pub open spec fn spec_be_value(s: Seq<u8>, n: nat) -> u64
    decreases n,
{
    if n <= 1 {
        (s[0] & 0x3fu8) as u64
    } else {
        (spec_be_value(s, (n - 1) as nat) << 8u64) | (s[n - 1] as u64)
    }
}

/// Decoding of a varint at the start of `s`: the value and the number of
/// bytes it takes, or `None` when `s` is too short.
pub open spec fn spec_decode_varint(s: Seq<u8>) -> Option<(u64, nat)> {
    if s.len() == 0 {
        None
    } else if s.len() < spec_prefix_len(s[0]) {
        None
    } else {
        Some((spec_be_value(s, spec_prefix_len(s[0])), spec_prefix_len(s[0])))
    }
}

pub proof fn lemma_varint_bytes_len(v: u64)
    ensures
        spec_varint_bytes(v).len() == spec_varint_len(v),
        1 <= spec_varint_len(v) <= 8,
{
}

proof fn lemma_be_prefix(s: Seq<u8>, t: Seq<u8>, n: nat)
    requires
        1 <= n <= s.len(),
    ensures
        spec_be_value(s + t, n) == spec_be_value(s, n),
    decreases n,
{
    if n > 1 {
        lemma_be_prefix(s, t, (n - 1) as nat);
    }
    assert((s + t)[n - 1] == s[n - 1]);
    assert((s + t)[0] == s[0]);
}

/// Every encoding decodes back to its value, whatever follows it.
pub proof fn lemma_varint_roundtrip(v: u64, rest: Seq<u8>)
    requires
        v <= spec_max_varint(),
    ensures
        spec_decode_varint(spec_varint_bytes(v) + rest) == Some((v, spec_varint_len(v))),
{
    let b = spec_varint_bytes(v);
    let s = b + rest;
    assert(s[0] == b[0]);
    lemma_be_prefix(b, rest, spec_varint_len(v));
    if v <= 63 {
        assert((v as u8) >> 6u8 == 0 && (((v as u8) & 0x3fu8) as u64) == v) by (bit_vector)
            requires v <= 63;
    } else if v <= 16383 {
        let b0 = 0x40u8 | ((v >> 8u64) as u8);
        let b1 = v as u8;
        assert(b0 >> 6u8 == 1 && ((((b0 & 0x3fu8) as u64) << 8u64) | (b1 as u64)) == v)
            by (bit_vector)
            requires
                63 < v <= 16383,
                b0 == 0x40u8 | ((v >> 8u64) as u8),
                b1 == v as u8,
        ;
        reveal_with_fuel(spec_be_value, 2);
    } else if v <= 1_073_741_823 {
        let b0 = 0x80u8 | ((v >> 24u64) as u8);
        let b1 = (v >> 16u64) as u8;
        let b2 = (v >> 8u64) as u8;
        let b3 = v as u8;
        assert(b0 >> 6u8 == 2 && ((((((((b0 & 0x3fu8) as u64) << 8u64) | (b1 as u64))
            << 8u64) | (b2 as u64)) << 8u64) | (b3 as u64)) == v) by (bit_vector)
            requires
                16383 < v <= 1_073_741_823,
                b0 == 0x80u8 | ((v >> 24u64) as u8),
                b1 == (v >> 16u64) as u8,
                b2 == (v >> 8u64) as u8,
                b3 == v as u8,
        ;
        reveal_with_fuel(spec_be_value, 4);
    } else {
        let b0 = 0xc0u8 | ((v >> 56u64) as u8);
        let b1 = (v >> 48u64) as u8;
        let b2 = (v >> 40u64) as u8;
        let b3 = (v >> 32u64) as u8;
        let b4 = (v >> 24u64) as u8;
        let b5 = (v >> 16u64) as u8;
        let b6 = (v >> 8u64) as u8;
        let b7 = v as u8;
        assert(b0 >> 6u8 == 3 && ((((((((((((((((b0 & 0x3fu8) as u64) << 8u64) | (b1 as u64))
            << 8u64) | (b2 as u64)) << 8u64) | (b3 as u64)) << 8u64) | (b4 as u64)) << 8u64) | (
        b5 as u64)) << 8u64) | (b6 as u64)) << 8u64) | (b7 as u64)) == v) by (bit_vector)
            requires
                1_073_741_823 < v <= 0x3FFF_FFFF_FFFF_FFFFu64,
                b0 == 0xc0u8 | ((v >> 56u64) as u8),
                b1 == (v >> 48u64) as u8,
                b2 == (v >> 40u64) as u8,
                b3 == (v >> 32u64) as u8,
                b4 == (v >> 24u64) as u8,
                b5 == (v >> 16u64) as u8,
                b6 == (v >> 8u64) as u8,
                b7 == v as u8,
        ;
        reveal_with_fuel(spec_be_value, 8);
    }
}

/// A decoded value never exceeds the varint maximum, and the decoder
/// takes 1, 2, 4 or 8 bytes.
pub proof fn lemma_decode_varint_bound(s: Seq<u8>)
    requires
        spec_decode_varint(s) is Some,
    ensures
        spec_decode_varint(s).unwrap().0 <= spec_max_varint(),
        1 <= spec_decode_varint(s).unwrap().1 <= 8,
        spec_decode_varint(s).unwrap().1 <= s.len(),
{
    let n = spec_prefix_len(s[0]);
    lemma_be_bound(s, n);
}

proof fn lemma_be_bound(s: Seq<u8>, n: nat)
    requires
        1 <= n <= 8,
        n <= s.len(),
    ensures
        n == 1 ==> spec_be_value(s, n) <= 0x3f,
        n == 2 ==> spec_be_value(s, n) <= 0x3fff,
        n == 3 ==> spec_be_value(s, n) <= 0x3f_ffff,
        n == 4 ==> spec_be_value(s, n) <= 0x3fff_ffff,
        n == 5 ==> spec_be_value(s, n) <= 0x3f_ffff_ffff,
        n == 6 ==> spec_be_value(s, n) <= 0x3fff_ffff_ffff,
        n == 7 ==> spec_be_value(s, n) <= 0x3f_ffff_ffff_ffff,
        n == 8 ==> spec_be_value(s, n) <= 0x3fff_ffff_ffff_ffff,
    decreases n,
{
    if n == 1 {
        let b = s[0];
        assert(((b & 0x3fu8) as u64) <= 0x3f) by (bit_vector);
    } else {
        lemma_be_bound(s, (n - 1) as nat);
        let p = spec_be_value(s, (n - 1) as nat);
        let b = s[n - 1];
        if n == 2 {
            assert(p <= 0x3f ==> ((p << 8u64) | (b as u64)) <= 0x3fff) by (bit_vector);
        } else if n == 3 {
            assert(p <= 0x3fff ==> ((p << 8u64) | (b as u64)) <= 0x3f_ffff) by (bit_vector);
        } else if n == 4 {
            assert(p <= 0x3f_ffff ==> ((p << 8u64) | (b as u64)) <= 0x3fff_ffff) by (bit_vector);
        } else if n == 5 {
            assert(p <= 0x3fff_ffff ==> ((p << 8u64) | (b as u64)) <= 0x3f_ffff_ffff)
                by (bit_vector);
        } else if n == 6 {
            assert(p <= 0x3f_ffff_ffff ==> ((p << 8u64) | (b as u64)) <= 0x3fff_ffff_ffff)
                by (bit_vector);
        } else if n == 7 {
            assert(p <= 0x3fff_ffff_ffff ==> ((p << 8u64) | (b as u64)) <= 0x3f_ffff_ffff_ffff)
                by (bit_vector);
        } else {
            assert(p <= 0x3f_ffff_ffff_ffff ==> ((p << 8u64) | (b as u64))
                <= 0x3fff_ffff_ffff_ffff) by (bit_vector);
        }
    }
}

/// Decoding looks only at the bytes it takes: appending bytes after a
/// complete varint does not change the result.
pub proof fn lemma_decode_varint_prefix(s: Seq<u8>, t: Seq<u8>)
    requires
        spec_decode_varint(s) is Some,
    ensures
        spec_decode_varint(s + t) == spec_decode_varint(s),
{
    let n = spec_prefix_len(s[0]);
    assert((s + t)[0] == s[0]);
    lemma_be_prefix(s, t, n);
}

/// Cutting the input short: before the varint's end nothing is decoded,
/// after it the same varint is.
pub proof fn lemma_decode_varint_take(s: Seq<u8>, k: int)
    requires
        spec_decode_varint(s) is Some,
        0 <= k <= s.len(),
    ensures
        k < spec_decode_varint(s)->Some_0.1 ==> spec_decode_varint(s.take(k)) is None,
        k >= spec_decode_varint(s)->Some_0.1 ==> spec_decode_varint(s.take(k)) == spec_decode_varint(s),
{
    let m = spec_prefix_len(s[0]);
    let p = s.take(k);
    if k < m {
        if k > 0 {
            assert(p[0] == s[0]);
        }
    } else {
        let a = s.take(m as int);
        assert(a[0] == s[0]);
        assert(spec_decode_varint(a) is Some);
        lemma_decode_varint_prefix(a, s.skip(m as int));
        assert(a + s.skip(m as int) =~= s);
        lemma_decode_varint_prefix(a, p.skip(m as int));
        assert(a + p.skip(m as int) =~= p);
    }
}

} // verus!
