//! Numerals: the decimal and `0x` hexadecimal text of unsigned integers, as
//! `{}` and `{:#x}` format them, and reading a `u16` back as
//! `str::parse::<u16>` does.
use vstd::prelude::*;
use vstd::utf8::{encode_utf8, is_ascii_chars, is_ascii_chars_encode_utf8, encode_utf8_valid_utf8, encode_utf8_decode_utf8};
use vstd::string::{StringExecFns, StringSliceAdditionalSpecFns};
use crate::moq_protocol::types::string_from_utf8;

verus! {

/// Decimal digits of `v`, most significant first, without leading zeros.
pub open spec fn spec_decimal_bytes(v: nat) -> Seq<u8>
    decreases v,
{
    if v < 10 {
        seq![(48 + v) as u8]
    } else {
        spec_decimal_bytes(v / 10).push((48 + v % 10) as u8)
    }
}

/// Decimal text of `v`.
pub open spec fn spec_decimal(v: nat) -> Seq<char> {
    spec_decimal_bytes(v).map_values(|b: u8| b as char)
}

/// Every byte of a decimal text is an ASCII digit.
proof fn lemma_decimal_digits(v: nat)
    ensures
        forall|i: int| 0 <= i < spec_decimal_bytes(v).len() ==> 48 <= #[trigger] spec_decimal_bytes(v)[i] <= 57,
    decreases v,
{
    if v >= 10 {
        lemma_decimal_digits(v / 10);
        let p = spec_decimal_bytes(v / 10);
        assert forall|i: int| 0 <= i < spec_decimal_bytes(v).len() implies 48 <= #[trigger] spec_decimal_bytes(v)[i] <= 57 by {
            if i < p.len() {
                assert(spec_decimal_bytes(v)[i] == p[i]);
            }
        }
    }
}

fn push_decimal(buf: &mut Vec<u8>, v: u64)
    ensures
        final(buf)@ == old(buf)@ + spec_decimal_bytes(v as nat),
    decreases v,
{
    if v >= 10 {
        push_decimal(buf, v / 10);
    }
    buf.push(48u8 + (v % 10) as u8);
    assert(final(buf)@ =~= old(buf)@ + spec_decimal_bytes(v as nat)) by {
        if v >= 10 {
            assert(spec_decimal_bytes(v as nat) == spec_decimal_bytes((v / 10) as nat).push((48 + v % 10) as u8));
        }
    }
}

/// The ASCII byte of hexadecimal digit `d` (lower case).
pub open spec fn spec_hex_digit(d: nat) -> u8 {
    if d < 10 { (48 + d) as u8 } else { (87 + d) as u8 }
}

/// Lower-case hexadecimal digits of `v`, most significant first, without
/// leading zeros.
pub open spec fn spec_hex_bytes(v: nat) -> Seq<u8>
    decreases v,
{
    if v < 16 {
        seq![spec_hex_digit(v)]
    } else {
        spec_hex_bytes(v / 16).push(spec_hex_digit(v % 16))
    }
}

/// The `{:#x}` text of `v`: `0x`, then its hexadecimal digits.
pub open spec fn spec_hex(v: nat) -> Seq<char> {
    seq!['0', 'x'] + spec_hex_bytes(v).map_values(|b: u8| b as char)
}

proof fn lemma_hex_ascii(v: nat)
    ensures
        forall|i: int| 0 <= i < spec_hex_bytes(v).len() ==> #[trigger] spec_hex_bytes(v)[i] < 128,
    decreases v,
{
    if v >= 16 {
        lemma_hex_ascii(v / 16);
        let p = spec_hex_bytes(v / 16);
        assert forall|i: int| 0 <= i < spec_hex_bytes(v).len() implies #[trigger] spec_hex_bytes(v)[i] < 128 by {
            if i < p.len() {
                assert(spec_hex_bytes(v)[i] == p[i]);
            }
        }
    }
}

fn push_hex(buf: &mut Vec<u8>, v: u64)
    ensures
        final(buf)@ == old(buf)@ + spec_hex_bytes(v as nat),
    decreases v,
{
    if v >= 16 {
        push_hex(buf, v / 16);
    }
    let d = (v % 16) as u8;
    let b = if d < 10 { 48u8 + d } else { 87u8 + d };
    buf.push(b);
    assert(final(buf)@ =~= old(buf)@ + spec_hex_bytes(v as nat)) by {
        if v >= 16 {
            assert(spec_hex_bytes(v as nat) == spec_hex_bytes((v / 16) as nat).push(spec_hex_digit((v % 16) as nat)));
        }
    }
}

/// The text of ASCII bytes.
fn ascii_string(bytes: Vec<u8>) -> (s: String)
    requires
        forall|i: int| 0 <= i < bytes@.len() ==> #[trigger] bytes@[i] < 128,
    ensures
        s@ == bytes@.map_values(|b: u8| b as char),
{
    let ghost chars = bytes@.map_values(|b: u8| b as char);
    proof {
        assert(is_ascii_chars(chars));
        is_ascii_chars_encode_utf8(chars);
        assert forall|i: int| 0 <= i < bytes@.len() implies #[trigger] bytes@[i] == encode_utf8(chars)[i] by {
            assert(chars[i] == bytes@[i] as char);
        }
        assert(bytes@ =~= encode_utf8(chars));
        encode_utf8_valid_utf8(chars);
        encode_utf8_decode_utf8(chars);
    }
    match string_from_utf8(bytes) {
        Some(s) => s,
        None => String::new(),
    }
}

/// The bytes of a decimal text are the ASCII digits it shows.
proof fn lemma_decimal_encoding(v: nat)
    ensures
        encode_utf8(spec_decimal(v)) == spec_decimal_bytes(v),
{
    let bytes = spec_decimal_bytes(v);
    let chars = spec_decimal(v);
    lemma_decimal_digits(v);
    assert(is_ascii_chars(chars));
    is_ascii_chars_encode_utf8(chars);
    assert forall|i: int| 0 <= i < bytes.len() implies #[trigger] bytes[i] == encode_utf8(chars)[i] by {
        assert(chars[i] == bytes[i] as char);
        assert(48 <= bytes[i] <= 57);
    }
    assert(bytes =~= encode_utf8(chars));
}

/// The value of the digits of `v` is `v`.
proof fn lemma_decimal_value(v: nat)
    ensures
        spec_digits_value(spec_decimal_bytes(v)) == v,
    decreases v,
{
    if v >= 10 {
        lemma_decimal_value(v / 10);
        let s = spec_decimal_bytes(v);
        assert(s.drop_last() =~= spec_decimal_bytes(v / 10));
        assert(s.last() == (48 + v % 10) as u8);
        assert(spec_digits_value(s) == spec_digits_value(s.drop_last()) * 10 + (s.last() - 48) as nat);
        assert((v / 10) * 10 + v % 10 == v);
    } else {
        let s = spec_decimal_bytes(v);
        assert(s.drop_last() =~= Seq::<u8>::empty());
        assert(spec_digits_value(s) == spec_digits_value(s.drop_last()) * 10 + (s.last() - 48) as nat);
    }
}

/// A status code written as text reads back as itself.
pub proof fn law_status_roundtrip(v: u16)
    ensures
        spec_parse_u16(encode_utf8(spec_decimal(v as nat))) == Some(v),
{
    lemma_decimal_encoding(v as nat);
    lemma_decimal_digits(v as nat);
    lemma_decimal_value(v as nat);
    let b = spec_decimal_bytes(v as nat);
    assert(b.len() > 0);
    assert(48 <= b[0] <= 57);
}

/// `head` followed by `tail`.
pub fn joined(head: &str, tail: &str) -> (s: String)
    ensures
        s@ == head@ + tail@,
{
    let mut s = head.to_owned();
    s.append(tail);
    s
}

/// The decimal text of `v`, as `{}` writes it.
pub fn format_u64(v: u64) -> (s: String)
    ensures
        s@ == spec_decimal(v as nat),
{
    let mut bytes: Vec<u8> = Vec::new();
    push_decimal(&mut bytes, v);
    proof {
        assert(bytes@ =~= spec_decimal_bytes(v as nat));
        lemma_decimal_digits(v as nat);
    }
    ascii_string(bytes)
}

/// The decimal text of `v`.
pub fn format_u16(v: u16) -> (s: String)
    ensures
        s@ == spec_decimal(v as nat),
{
    format_u64(v as u64)
}

/// The `0x` hexadecimal text of `v`, as `{:#x}` writes it.
pub fn format_hex(v: u64) -> (s: String)
    ensures
        s@ == spec_hex(v as nat),
{
    let mut bytes: Vec<u8> = Vec::new();
    bytes.push(48u8);
    bytes.push(120u8);
    push_hex(&mut bytes, v);
    proof {
        lemma_hex_ascii(v as nat);
        assert(bytes@ =~= seq![48u8, 120u8] + spec_hex_bytes(v as nat));
        assert(bytes@.map_values(|b: u8| b as char) =~= spec_hex(v as nat));
    }
    ascii_string(bytes)
}

/// Value of the decimal digits `d`.
pub open spec fn spec_digits_value(d: Seq<u8>) -> nat
    decreases d.len(),
{
    if d.len() == 0 {
        0
    } else {
        spec_digits_value(d.drop_last()) * 10 + (d.last() - 48) as nat
    }
}

/// Whether every byte of `d` is an ASCII digit.
pub open spec fn spec_all_digits(d: Seq<u8>) -> bool {
    forall|i: int| 0 <= i < d.len() ==> 48 <= #[trigger] d[i] <= 57
}

/// The `u16` that the text `b` denotes: an optional `+`, then at least one
/// decimal digit, and a value that fits.
pub open spec fn spec_parse_u16(b: Seq<u8>) -> Option<u16> {
    let d = if b.len() > 0 && b[0] == 43u8 { b.skip(1) } else { b };
    if d.len() > 0 && spec_all_digits(d) && spec_digits_value(d) <= 65535 {
        Some(spec_digits_value(d) as u16)
    } else {
        None
    }
}

/// A prefix of digits is worth no more than the whole.
proof fn lemma_digits_value_prefix(d: Seq<u8>, k: int)
    requires
        0 <= k <= d.len(),
        spec_all_digits(d),
    ensures
        spec_digits_value(d.take(k)) <= spec_digits_value(d),
    decreases d.len() - k,
{
    if k < d.len() {
        let e = d.take(k + 1);
        assert(e.drop_last() =~= d.take(k));
        assert(48 <= e.last());
        lemma_digits_value_prefix(d, k + 1);
    } else {
        assert(d.take(k) =~= d);
    }
}

/// Reads the decimal text of a `u16`, as `str::parse::<u16>` does.
pub fn parse_u16(s: &str) -> (r: Option<u16>)
    ensures
        r == spec_parse_u16(s.spec_bytes()),
{
    let b = s.as_bytes();
    let mut i: usize = 0;
    if b.len() > 0 && b[0] == 43u8 {
        i = 1;
    }
    let ghost d = if b@.len() > 0 && b@[0] == 43u8 { b@.skip(1) } else { b@ };
    assert(d =~= b@.skip(i as int));
    if i >= b.len() {
        return None;
    }
    let start = i;
    let mut value: u32 = 0;
    while i < b.len()
        invariant
            start <= i <= b.len(),
            b@ == s.spec_bytes(),
            d == (if b@.len() > 0 && b@[0] == 43u8 { b@.skip(1) } else { b@ }),
            d == b@.skip(start as int),
            spec_all_digits(b@.subrange(start as int, i as int)),
            value == spec_digits_value(b@.subrange(start as int, i as int)),
            value <= 65535,
        decreases b.len() - i,
    {
        let c = b[i];
        let ghost prev = b@.subrange(start as int, i as int);
        let ghost next = b@.subrange(start as int, i + 1);
        assert(next.drop_last() =~= prev);
        assert(next.last() == c);
        if c < 48u8 || c > 57u8 {
            assert(d[i - start] == c);
            assert(!spec_all_digits(d));
            return None;
        }
        value = value * 10 + (c - 48u8) as u32;
        if value > 65535 {
            proof {
                assert(value == spec_digits_value(next));
                assert(spec_all_digits(next));
                assert(next =~= d.take(i + 1 - start));
                if spec_all_digits(d) {
                    lemma_digits_value_prefix(d, i + 1 - start);
                }
            }
            return None;
        }
        i = i + 1;
    }
    assert(b@.subrange(start as int, i as int) =~= d);
    Some(value as u16)
}

} // verus!
