//! QPACK field sections as this endpoint uses them: no dynamic
//! table; literal field lines written without Huffman coding; static-table
//! references, literals and Huffman-coded strings read.
use vstd::prelude::*;
use vstd::utf8::{valid_utf8, decode_utf8, encode_utf8, encode_utf8_valid_utf8, encode_utf8_decode_utf8};
use vstd::string::StringSliceAdditionalSpecFns;
use vstd::arithmetic::power2::{pow2, lemma_pow2_adds, lemma_pow2_pos, lemma2_to64};
use vstd::arithmetic::div_mod::lemma_fundamental_div_mod;
use vstd::arithmetic::mul::{lemma_mul_inequality, lemma_mul_is_distributive_add};
use vstd::bits::{lemma_u64_shl_is_mul, lemma_u64_pow2_no_overflow};
use crate::moq_protocol::types::string_from_utf8;
use crate::webtransport::capsule::extend;
use crate::webtransport::error::{Error, ErrorKind, Result};

verus! {

/// Outcome of reading an item at the start of some bytes: its value and
/// the bytes it takes; malformed input; or an input on which the reading
/// would overflow a machine integer.
pub enum Parsed<T> {
    Value(T, nat),
    Malformed,
    Overflow,
}

// ---------------------------------------------------------------------------
// Prefixed integers
// ---------------------------------------------------------------------------

/// Largest value the prefix of `bits` bits holds.
pub open spec fn spec_max_prefix(bits: u8) -> u64 {
    ((1u64 << (bits as u64)) - 1) as u64
}

/// What a continuation byte adds at `shift`.
pub open spec fn spec_int_term(b: u8, shift: nat) -> u64 {
    ((b as u64) & 0x7fu64) << (shift as u64)
}

/// Reads the continuation bytes of a prefixed integer from `s[i..]`,
/// `value` having been read so far.
pub open spec fn spec_prefix_int_rest(s: Seq<u8>, i: nat, value: int, shift: nat) -> Parsed<u64>
    decreases s.len() - i,
{
    if i >= s.len() {
        Parsed::Malformed
    } else {
        let b = s[i as int];
        let v = value + spec_int_term(b, shift);
        if v > u64::MAX {
            Parsed::Overflow
        } else if (b as u64) & 0x80u64 == 0 {
            Parsed::Value(v as u64, i + 1)
        } else if shift + 7 > 63 {
            Parsed::Malformed
        } else {
            spec_prefix_int_rest(s, i + 1, v, shift + 7)
        }
    }
}

/// Reads a prefixed integer whose prefix has `bits` bits from the start
/// of `s`.
pub open spec fn spec_prefix_int(s: Seq<u8>, bits: u8) -> Parsed<u64> {
    if s.len() == 0 {
        Parsed::Malformed
    } else {
        let m = spec_max_prefix(bits);
        let v = (s[0] as u64) & m;
        if v < m {
            Parsed::Value(v, 1)
        } else {
            spec_prefix_int_rest(s, 1, v as int, 0)
        }
    }
}

/// Continuation bytes that carry `r`, seven bits at a time, low bits first.
pub open spec fn spec_int_tail(r: nat) -> Seq<u8>
    decreases r,
{
    if r >= 128 {
        seq![(0x80 + r % 128) as u8] + spec_int_tail(r / 128)
    } else {
        seq![r as u8]
    }
}

/// Bytes of `value` as a prefixed integer with a prefix of `bits` bits,
/// the first byte or-ed with `mask`.
pub open spec fn spec_encode_prefix_int(value: u64, bits: u8, mask: u8) -> Seq<u8> {
    let m = spec_max_prefix(bits);
    if value < m {
        seq![mask | (value as u8)]
    } else {
        seq![mask | (m as u8)] + spec_int_tail((value - m) as nat)
    }
}

proof fn lemma_max_prefix(bits: u8)
    requires
        bits < 64,
    ensures
        (1u64 << (bits as u64)) == pow2(bits as nat),
        1 <= pow2(bits as nat) <= u64::MAX,
{
    lemma_u64_pow2_no_overflow(bits as nat);
    lemma_u64_shl_is_mul(1u64, bits as u64);
}

/// Appends `value` as a prefixed integer with a prefix of `prefix_bits`
/// bits, the first byte or-ed with `first_byte_mask`.
pub fn encode_prefix_int_into(buf: &mut Vec<u8>, value: u64, prefix_bits: u8, first_byte_mask: u8)
    requires
        prefix_bits < 64,
    ensures
        final(buf)@ == old(buf)@ + spec_encode_prefix_int(value, prefix_bits, first_byte_mask),
{
    proof {
        lemma_max_prefix(prefix_bits);
    }
    let max_prefix: u64 = (1u64 << prefix_bits as u64) - 1;
    if value < max_prefix {
        buf.push(first_byte_mask | (value as u8));
        assert(buf@ =~= old(buf)@ + spec_encode_prefix_int(value, prefix_bits, first_byte_mask));
    } else {
        buf.push(first_byte_mask | (max_prefix as u8));
        let mut remaining: u64 = value - max_prefix;
        let ghost head = buf@;
        assert(head =~= old(buf)@ + seq![first_byte_mask | (max_prefix as u8)]);
        while remaining >= 128
            invariant
                head + spec_int_tail((value - max_prefix) as nat) == buf@ + spec_int_tail(remaining as nat),
            decreases remaining,
        {
            let b: u8 = 0x80u8 | ((remaining & 0x7f) as u8);
            assert(b == (0x80 + remaining % 128) as u8) by (bit_vector)
                requires
                    b == 0x80u8 | ((remaining & 0x7f) as u8),
            ;
            assert(remaining >> 7u64 == remaining / 128) by (bit_vector);
            let ghost before = buf@;
            buf.push(b);
            assert(before + spec_int_tail(remaining as nat) =~= buf@ + spec_int_tail((remaining / 128) as nat));
            remaining = remaining >> 7;
        }
        let ghost before = buf@;
        buf.push(remaining as u8);
        assert(before + spec_int_tail(remaining as nat) =~= buf@);
        assert(buf@ =~= old(buf)@ + spec_encode_prefix_int(value, prefix_bits, first_byte_mask));
    }
}

/// Reads a prefixed integer; an input on which the reading would overflow
/// is refused like a malformed one.
fn read_prefix_int(data: &[u8], prefix_bits: u8) -> (r: Result<(u64, usize)>)
    requires
        prefix_bits < 64,
    ensures
        match spec_prefix_int(data@, prefix_bits) {
            Parsed::Value(v, n) => r == Ok::<(u64, usize), Error>((v, n as usize)),
            _ => r matches Err(e) && e.kind() == ErrorKind::QpackError,
        },
{
    if data.len() == 0 {
        return Err(Error::QpackError("unexpected end of prefix int".to_owned()));
    }
    proof {
        lemma_max_prefix(prefix_bits);
    }
    let max_prefix: u64 = (1u64 << prefix_bits as u64) - 1;
    let mut value: u64 = (data[0] as u64) & max_prefix;
    let mut offset: usize = 1;
    if value < max_prefix {
        return Ok((value, offset));
    }
    let mut shift: u64 = 0;
    loop
        invariant
            1 <= offset <= data.len(),
            shift <= 63,
            spec_prefix_int(data@, prefix_bits) == spec_prefix_int_rest(data@, offset as nat, value as int, shift as nat),
        decreases data.len() - offset,
    {
        if offset >= data.len() {
            return Err(Error::QpackError("truncated prefix int".to_owned()));
        }
        let byte: u64 = data[offset] as u64;
        offset = offset + 1;
        let term: u64 = (byte & 0x7f) << shift;
        value = match value.checked_add(term) {
            Some(v) => v,
            None => {
                return Err(Error::QpackError("prefix int overflow".to_owned()));
            },
        };
        if byte & 0x80 == 0 {
            return Ok((value, offset));
        }
        shift = shift + 7;
        if shift > 63 {
            return Err(Error::QpackError("prefix int overflow".to_owned()));
        }
    }
}

/// Reads a prefixed integer whose prefix has `prefix_bits` bits from the
/// start of `data`: its value and the bytes it takes; a value that does
/// not fit in 64 bits is refused.
pub fn decode_prefix_int(data: &[u8], prefix_bits: u8) -> (r: Result<(u64, usize)>)
    requires
        prefix_bits < 64,
    ensures
        match spec_prefix_int(data@, prefix_bits) {
            Parsed::Value(v, n) => r == Ok::<(u64, usize), Error>((v, n as usize)),
            _ => r matches Err(e) && e.kind() == ErrorKind::QpackError,
        },
{
    read_prefix_int(data, prefix_bits)
}


// ---------------------------------------------------------------------------
// String literals
// ---------------------------------------------------------------------------

/// Reads a string literal whose length prefix has `bits` bits, the bit
/// above them flagging Huffman coding.
pub open spec fn spec_decode_string(s: Seq<u8>, bits: u8) -> Parsed<Seq<char>> {
    if s.len() == 0 {
        Parsed::Malformed
    } else {
        let huffman = s[0] & (1u8 << bits) != 0;
        match spec_prefix_int(s, bits) {
            Parsed::Value(len, n) => if n + len > usize::MAX {
                Parsed::Overflow
            } else if s.len() < n + len {
                Parsed::Malformed
            } else {
                let raw = s.subrange(n as int, (n + len) as int);
                let bytes = if huffman { spec_huffman_decode(raw) } else { Some(raw) };
                match bytes {
                    Some(b) => if valid_utf8(b) {
                        Parsed::Value(decode_utf8(b), (n + len) as nat)
                    } else {
                        Parsed::Malformed
                    },
                    None => Parsed::Malformed,
                }
            },
            Parsed::Malformed => Parsed::Malformed,
            Parsed::Overflow => Parsed::Overflow,
        }
    }
}

/// A prefixed integer read takes at least one byte and at most all.
proof fn lemma_prefix_int_len(s: Seq<u8>, bits: u8)
    ensures
        spec_prefix_int(s, bits) matches Parsed::Value(v, n) ==> 1 <= n <= s.len(),
{
    if s.len() > 0 {
        let m = spec_max_prefix(bits);
        let v = (s[0] as u64) & m;
        if v >= m {
            lemma_prefix_int_rest_len(s, 1, v as int, 0);
        }
    }
}

proof fn lemma_prefix_int_rest_len(s: Seq<u8>, i: nat, value: int, shift: nat)
    ensures
        spec_prefix_int_rest(s, i, value, shift) matches Parsed::Value(v, n) ==> i < n <= s.len(),
    decreases s.len() - i,
{
    if i < s.len() {
        let v = value + spec_int_term(s[i as int], shift);
        lemma_prefix_int_rest_len(s, i + 1, v, shift + 7);
    }
}

/// A string read takes at least one byte and at most all.
proof fn lemma_string_len(s: Seq<u8>, bits: u8)
    ensures
        spec_decode_string(s, bits) matches Parsed::Value(v, n) ==> 1 <= n <= s.len(),
{
    lemma_prefix_int_len(s, bits);
}

/// Reads a string literal; inputs on which the reading would overflow are
/// refused like malformed ones.
fn read_string(data: &[u8], prefix_bits: u8) -> (r: Result<(String, usize)>)
    requires
        prefix_bits < 8,
    ensures
        match spec_decode_string(data@, prefix_bits) {
            Parsed::Value(v, n) => r matches Ok((x, m)) && x@ == v && m == n,
            _ => r matches Err(e) && e.kind() == ErrorKind::QpackError,
        },
{
    if data.len() == 0 {
        return Err(Error::QpackError("unexpected end of string".to_owned()));
    }
    let huffman = data[0] & (1u8 << prefix_bits) != 0;
    let (length, n) = read_prefix_int(data, prefix_bits)?;
    proof {
        lemma_prefix_int_len(data@, prefix_bits);
    }
    if length > (usize::MAX - n) as u64 {
        return Err(Error::QpackError("truncated string".to_owned()));
    }
    let length = length as usize;
    if data.len() < n + length {
        return Err(Error::QpackError("truncated string".to_owned()));
    }
    let raw = &data[n..n + length];
    assert(raw@ =~= data@.subrange(n as int, (n + length) as int));
    let bytes = if huffman {
        huffman_decode(raw)?
    } else {
        vstd::slice::slice_to_vec(raw)
    };
    match string_from_utf8(bytes) {
        Some(s) => Ok((s, n + length)),
        None => Err(Error::QpackError("invalid UTF-8 in string".to_owned())),
    }
}

// ---------------------------------------------------------------------------
// Field sections
// ---------------------------------------------------------------------------

/// Outcome of reading a field section.
pub enum HeaderBlock {
    Headers(Seq<(Seq<char>, Seq<char>)>),
    Malformed,
    Overflow,
}

/// Reads one field line at the start of `s`: an indexed line or a literal
/// with a name reference, both into the static table, or a literal with a
/// literal name.
pub open spec fn spec_field_line(s: Seq<u8>) -> Parsed<(Seq<char>, Seq<char>)> {
    let fb = s[0];
    if fb & 0x80u8 != 0 {
        let static_ref = fb & 0x40u8 != 0;
        match spec_prefix_int(s, 6) {
            Parsed::Value(idx, n) => if !static_ref {
                Parsed::Malformed
            } else {
                match spec_static_entry(idx) {
                    Some(e) => Parsed::Value(e, n),
                    None => Parsed::Malformed,
                }
            },
            Parsed::Malformed => Parsed::Malformed,
            Parsed::Overflow => Parsed::Overflow,
        }
    } else if fb & 0xc0u8 == 0x40u8 {
        let static_ref = fb & 0x10u8 != 0;
        match spec_prefix_int(s, 4) {
            Parsed::Value(idx, n) => if !static_ref {
                Parsed::Malformed
            } else {
                match spec_static_entry(idx) {
                    Some((name, _)) => match spec_decode_string(s.skip(n as int), 7) {
                        Parsed::Value(v, m) => Parsed::Value((name, v), n + m),
                        Parsed::Malformed => Parsed::Malformed,
                        Parsed::Overflow => Parsed::Overflow,
                    },
                    None => Parsed::Malformed,
                }
            },
            Parsed::Malformed => Parsed::Malformed,
            Parsed::Overflow => Parsed::Overflow,
        }
    } else if fb & 0xe0u8 == 0x20u8 {
        match spec_decode_string(s, 3) {
            Parsed::Value(name, n) => match spec_decode_string(s.skip(n as int), 7) {
                Parsed::Value(v, m) => Parsed::Value((name, v), n + m),
                Parsed::Malformed => Parsed::Malformed,
                Parsed::Overflow => Parsed::Overflow,
            },
            Parsed::Malformed => Parsed::Malformed,
            Parsed::Overflow => Parsed::Overflow,
        }
    } else {
        Parsed::Malformed
    }
}

/// Reads field lines up to the end of `s`.
pub open spec fn spec_field_lines(s: Seq<u8>) -> HeaderBlock
    decreases s.len(),
{
    if s.len() == 0 {
        HeaderBlock::Headers(Seq::empty())
    } else {
        match spec_field_line(s) {
            Parsed::Value(f, n) => if 0 < n <= s.len() {
                match spec_field_lines(s.skip(n as int)) {
                    HeaderBlock::Headers(rest) => HeaderBlock::Headers(seq![f] + rest),
                    other => other,
                }
            } else {
                HeaderBlock::Malformed
            },
            Parsed::Malformed => HeaderBlock::Malformed,
            Parsed::Overflow => HeaderBlock::Overflow,
        }
    }
}

/// Reads a field section: its prefix (Required Insert Count and Delta
/// Base), then its field lines.
pub open spec fn spec_decode_header_block(data: Seq<u8>) -> HeaderBlock {
    if data.len() < 2 {
        HeaderBlock::Malformed
    } else {
        match spec_prefix_int(data, 8) {
            Parsed::Value(_, n1) => match spec_prefix_int(data.skip(n1 as int), 7) {
                Parsed::Value(_, n2) => if n1 + n2 <= data.len() {
                    spec_field_lines(data.skip((n1 + n2) as int))
                } else {
                    HeaderBlock::Malformed
                },
                Parsed::Malformed => HeaderBlock::Malformed,
                Parsed::Overflow => HeaderBlock::Overflow,
            },
            Parsed::Malformed => HeaderBlock::Malformed,
            Parsed::Overflow => HeaderBlock::Overflow,
        }
    }
}

/// Name and value of each pair.
pub open spec fn spec_pairs_view(v: Seq<(String, String)>) -> Seq<(Seq<char>, Seq<char>)> {
    v.map_values(|p: (String, String)| (p.0@, p.1@))
}

/// Reads one field line; inputs on which the reading would overflow are
/// refused like malformed ones.
fn read_field_line(data: &[u8]) -> (r: Result<((String, String), usize)>)
    requires
        data.len() > 0,
    ensures
        match spec_field_line(data@) {
            Parsed::Value(f, n) => r matches Ok((x, m)) && x.0@ == f.0 && x.1@ == f.1 && m == n,
            _ => r matches Err(e) && e.kind() == ErrorKind::QpackError,
        },
{
    let first_byte = data[0];
    if first_byte & 0x80 != 0 {
        let static_ref = first_byte & 0x40 != 0;
        let (index, n) = read_prefix_int(data, 6)?;
        proof {
            lemma_prefix_int_len(data@, 6);
        }
        if !static_ref {
            return Err(Error::QpackError("dynamic table not supported".to_owned()));
        }
        let entry = if index < 99 { static_table_get(index as usize) } else { None };
        match entry {
            Some((name, value)) => Ok(((name.to_owned(), value.to_owned()), n)),
            None => Err(Error::QpackError("static index out of range".to_owned())),
        }
    } else if first_byte & 0xc0 == 0x40 {
        let static_ref = first_byte & 0x10 != 0;
        let (index, n) = read_prefix_int(data, 4)?;
        proof {
            lemma_prefix_int_len(data@, 4);
        }
        if !static_ref {
            return Err(Error::QpackError("dynamic table not supported".to_owned()));
        }
        let entry = if index < 99 { static_table_get(index as usize) } else { None };
        let name = match entry {
            Some((name, _)) => name.to_owned(),
            None => {
                return Err(Error::QpackError("static index out of range".to_owned()));
            },
        };
        let rest = &data[n..data.len()];
        assert(rest@ =~= data@.skip(n as int));
        let (value, m) = read_string(rest, 7)?;
        proof {
            lemma_string_len(rest@, 7);
        }
        Ok(((name, value), n + m))
    } else if first_byte & 0xe0 == 0x20 {
        let (name, n) = read_string(data, 3)?;
        proof {
            lemma_string_len(data@, 3);
        }
        let rest = &data[n..data.len()];
        assert(rest@ =~= data@.skip(n as int));
        let (value, m) = read_string(rest, 7)?;
        proof {
            lemma_string_len(rest@, 7);
        }
        Ok(((name, value), n + m))
    } else {
        Err(Error::QpackError("unsupported field line encoding".to_owned()))
    }
}

/// Reads a field section; inputs on which the reading would overflow are
/// refused like malformed ones.
#[verifier::spinoff_prover]
#[verifier::rlimit(40)]
pub(crate) fn read_header_block(data: &[u8]) -> (r: Result<Vec<(String, String)>>)
    ensures
        match spec_decode_header_block(data@) {
            HeaderBlock::Headers(h) => r matches Ok(v) && spec_pairs_view(v@) == h,
            _ => r matches Err(e) && e.kind() == ErrorKind::QpackError,
        },
{
    if data.len() < 2 {
        return Err(Error::QpackError("header block too short".to_owned()));
    }
    let (_ric, n1) = read_prefix_int(data, 8)?;
    proof {
        lemma_prefix_int_len(data@, 8);
    }
    let rest = &data[n1..data.len()];
    assert(rest@ =~= data@.skip(n1 as int));
    let (_base, n2) = read_prefix_int(rest, 7)?;
    proof {
        lemma_prefix_int_len(rest@, 7);
    }
    let mut offset: usize = n1 + n2;
    let mut headers: Vec<(String, String)> = Vec::new();
    proof {
        match spec_field_lines(data@.skip(offset as int)) {
            HeaderBlock::Headers(t) => {
                assert(spec_pairs_view(headers@) + t =~= t);
            },
            _ => {},
        }
    }
    while offset < data.len()
        invariant
            offset <= data.len(),
            spec_decode_header_block(data@) == match spec_field_lines(data@.skip(offset as int)) {
                HeaderBlock::Headers(t) => HeaderBlock::Headers(spec_pairs_view(headers@) + t),
                other => other,
            },
        decreases data.len() - offset,
    {
        let cur = &data[offset..data.len()];
        assert(cur@ =~= data@.skip(offset as int));
        let (field, n) = read_field_line(cur)?;
        if n == 0 || n > data.len() - offset {
            return Err(Error::QpackError("truncated field line".to_owned()));
        }
        let ghost before = spec_pairs_view(headers@);
        let ghost fv = (field.0@, field.1@);
        headers.push(field);
        proof {
            assert(cur@.skip(n as int) =~= data@.skip((offset + n) as int));
            assert(spec_pairs_view(headers@) =~= before.push(fv));
            match spec_field_lines(data@.skip((offset + n) as int)) {
                HeaderBlock::Headers(t) => {
                    assert(before + (seq![fv] + t) =~= before.push(fv) + t);
                },
                _ => {},
            }
        }
        offset = offset + n;
    }
    proof {
        assert(data@.skip(offset as int) =~= Seq::<u8>::empty());
        assert(spec_pairs_view(headers@) + Seq::empty() =~= spec_pairs_view(headers@));
    }
    Ok(headers)
}

/// Reads a field section into its name and value pairs; a prefixed
/// integer or length that does not fit is refused.
pub fn decode_header_block(data: &[u8]) -> (r: Result<Vec<(String, String)>>)
    ensures
        match spec_decode_header_block(data@) {
            HeaderBlock::Headers(h) => r matches Ok(v) && spec_pairs_view(v@) == h,
            _ => r matches Err(e) && e.kind() == ErrorKind::QpackError,
        },
{
    read_header_block(data)
}


// ---------------------------------------------------------------------------
// Writing field sections
// ---------------------------------------------------------------------------

/// A literal field line with a literal name, neither string Huffman-coded.
pub open spec fn spec_encode_field_line(name: Seq<char>, value: Seq<char>) -> Seq<u8> {
    let n = encode_utf8(name);
    let v = encode_utf8(value);
    spec_encode_prefix_int(n.len() as u64, 3, 0x20) + n + spec_encode_prefix_int(v.len() as u64, 7, 0) + v
}

/// The field lines of `h`, one after the other.
pub open spec fn spec_encode_field_lines(h: Seq<(Seq<char>, Seq<char>)>) -> Seq<u8>
    decreases h.len(),
{
    if h.len() == 0 {
        Seq::empty()
    } else {
        spec_encode_field_line(h[0].0, h[0].1) + spec_encode_field_lines(h.skip(1))
    }
}

/// A field section that refers to no dynamic table entry, then the field
/// lines of `h`.
pub open spec fn spec_encode_header_block(h: Seq<(Seq<char>, Seq<char>)>) -> Seq<u8> {
    seq![0u8, 0u8] + spec_encode_field_lines(h)
}

/// Name and value of each pair.
pub open spec fn spec_strs_view(h: Seq<(&str, &str)>) -> Seq<(Seq<char>, Seq<char>)> {
    h.map_values(|p: (&str, &str)| (p.0@, p.1@))
}

fn encode_literal_with_literal_name(buf: &mut Vec<u8>, name: &[u8], value: &[u8])
    ensures
        final(buf)@ == old(buf)@ + spec_encode_prefix_int(name@.len() as u64, 3, 0x20) + name@
            + spec_encode_prefix_int(value@.len() as u64, 7, 0) + value@,
{
    encode_prefix_int_into(buf, name.len() as u64, 3, 0x20);
    extend(buf, name);
    encode_prefix_int_into(buf, value.len() as u64, 7, 0x00);
    extend(buf, value);
}

/// Writes the field section of `headers`: each as a literal field line
/// with a literal name.
pub fn encode_header_block(headers: &[(&str, &str)]) -> (r: Vec<u8>)
    ensures
        r@ == spec_encode_header_block(spec_strs_view(headers@)),
{
    let ghost h = spec_strs_view(headers@);
    let mut buf: Vec<u8> = Vec::new();
    buf.push(0x00);
    buf.push(0x00);
    let mut i: usize = 0;
    assert(h.skip(0) =~= h);
    while i < headers.len()
        invariant
            i <= headers.len(),
            h == spec_strs_view(headers@),
            buf@ + spec_encode_field_lines(h.skip(i as int)) == spec_encode_header_block(h),
        decreases headers.len() - i,
    {
        let (name, value) = headers[i];
        let ghost before = buf@;
        encode_literal_with_literal_name(&mut buf, name.as_bytes(), value.as_bytes());
        proof {
            assert(h.skip(i as int)[0] == (name@, value@));
            assert(h.skip(i as int).skip(1) =~= h.skip(i + 1));
            assert(before + spec_encode_field_lines(h.skip(i as int))
                =~= buf@ + spec_encode_field_lines(h.skip(i + 1)));
        }
        i = i + 1;
    }
    assert(h.skip(i as int) =~= Seq::<(Seq<char>, Seq<char>)>::empty());
    assert(buf@ + Seq::<u8>::empty() =~= buf@);
    buf
}

// ---------------------------------------------------------------------------
// Laws
// ---------------------------------------------------------------------------

/// Reading continuation bytes written for `r` at `shift` adds `r * 2^shift`.
proof fn lemma_int_tail_read(s: Seq<u8>, i: nat, value: int, shift: nat, r: nat)
    requires
        0 <= value,
        value + r * pow2(shift) <= u64::MAX,
        shift <= 63,
        i + spec_int_tail(r).len() <= s.len(),
        s.subrange(i as int, (i + spec_int_tail(r).len()) as int) == spec_int_tail(r),
    ensures
        spec_prefix_int_rest(s, i, value, shift)
            == Parsed::Value((value + r * pow2(shift)) as u64, i + spec_int_tail(r).len()),
    decreases r,
{
    let t = spec_int_tail(r);
    let b = s[i as int];
    assert(b == t[0]);
    let p = pow2(shift);
    lemma_pow2_pos(shift);
    let d: u64 = (r % 128) as u64;
    assert((b as u64) & 0x7fu64 == d && (((b as u64) & 0x80u64 == 0) <==> r < 128)) by {
        if r >= 128 {
            let x: u64 = (r % 128) as u64;
            assert(b == (0x80 + x) as u8);
            assert(x < 128 ==> (((0x80 + x) as u8) as u64) & 0x7fu64 == x
                && (((0x80 + x) as u8) as u64) & 0x80u64 != 0) by (bit_vector);
        } else {
            let x: u64 = r as u64;
            assert(b == x as u8);
            assert(x < 128 ==> ((x as u8) as u64) & 0x7fu64 == x && ((x as u8) as u64) & 0x80u64 == 0)
                by (bit_vector);
        }
    }
    assert(d * p <= r * p) by (nonlinear_arith)
        requires
            d <= r,
            p >= 1,
    ;
    lemma_u64_shl_is_mul(d, shift as u64);
    assert(spec_int_term(b, shift) == d * p);
    let v = value + d * p;
    if r >= 128 {
        lemma_pow2_adds(shift, 7);
        lemma2_to64();
        assert(pow2(shift + 7) == p * 128);
        assert(shift + 7 <= 63) by {
            if shift + 7 > 63 {
                lemma_pow2_strictly_increases_le(64, shift + 7);
                assert(r * p >= 128 * p) by (nonlinear_arith)
                    requires
                        r >= 128,
                        p >= 1,
                ;
            }
        }
        let q = r / 128;
        lemma_fundamental_div_mod(r as int, 128);
        assert(v + q * pow2(shift + 7) == value + r * p) by (nonlinear_arith)
            requires
                v == value + d * p,
                pow2(shift + 7) == p * 128,
                r == 128 * q + d,
        ;
        assert(t =~= seq![b] + spec_int_tail(q));
        let tq = spec_int_tail(q);
        assert forall|j: int| 0 <= j < tq.len() implies
            #[trigger] s.subrange((i + 1) as int, ((i + 1) + tq.len()) as int)[j] == tq[j] by {
            assert(s.subrange(i as int, (i + t.len()) as int)[j + 1] == t[j + 1]);
        }
        assert(s.subrange((i + 1) as int, ((i + 1) + tq.len()) as int) =~= tq);
        lemma_int_tail_read(s, i + 1, v, shift + 7, q);
    } else {
        assert(d == r);
    }
}

proof fn lemma_pow2_strictly_increases_le(e1: nat, e2: nat)
    requires
        e1 <= e2,
    ensures
        pow2(e1) <= pow2(e2),
{
    if e1 < e2 {
        vstd::arithmetic::power2::lemma_pow2_strictly_increases(e1, e2);
    }
}

/// The two prefixes a field line uses: three bits under `001`, and seven
/// bits.
pub open spec fn spec_line_prefix(bits: u8, mask: u8) -> bool {
    (bits == 3 && mask == 0x20) || (bits == 7 && mask == 0)
}

/// A prefixed integer reads back from its bytes, whatever follows them.
proof fn lemma_prefix_int_roundtrip(v: u64, bits: u8, mask: u8, rest: Seq<u8>)
    requires
        spec_line_prefix(bits, mask),
    ensures
        spec_prefix_int(spec_encode_prefix_int(v, bits, mask) + rest, bits)
            == Parsed::Value(v, spec_encode_prefix_int(v, bits, mask).len()),
{
    let e = spec_encode_prefix_int(v, bits, mask);
    let s = e + rest;
    lemma_max_prefix(bits);
    lemma2_to64();
    let m = spec_max_prefix(bits);
    assert(m == 7 || m == 127);
    assert(bits == 3 ==> m == 7);
    assert(bits == 7 ==> m == 127);
    assert(s[0] == e[0]);
    if v < m {
        assert((((mask | (v as u8)) as u64) & m) == v) by (bit_vector)
            requires
                v < m,
                (m == 7 && mask == 0x20) || (m == 127 && mask == 0),
        ;
    } else {
        assert((((mask | (m as u8)) as u64) & m) == m) by (bit_vector)
            requires
                (m == 7 && mask == 0x20) || (m == 127 && mask == 0),
        ;
        let r = (v - m) as nat;
        assert(pow2(0) == 1);
        assert(s.subrange(1, (1 + spec_int_tail(r).len()) as int) =~= spec_int_tail(r));
        lemma_int_tail_read(s, 1, m as int, 0, r);
    }
}

/// The first byte of a prefixed integer written with a field-line prefix
/// carries no Huffman flag, and in the three-bit case marks a literal with
/// a literal name.
proof fn lemma_first_byte(v: u64, bits: u8, mask: u8)
    requires
        spec_line_prefix(bits, mask),
    ensures
        spec_encode_prefix_int(v, bits, mask)[0] & (1u8 << bits) == 0,
        bits == 3 ==> ({
            let fb = spec_encode_prefix_int(v, bits, mask)[0];
            fb & 0x80u8 == 0 && fb & 0xc0u8 != 0x40u8 && fb & 0xe0u8 == 0x20u8
        }),
{
    lemma_max_prefix(bits);
    lemma2_to64();
    let m = spec_max_prefix(bits);
    let fb = spec_encode_prefix_int(v, bits, mask)[0];
    let x: u8 = if v < m { v as u8 } else { m as u8 };
    assert(fb == mask | x);
    assert(x <= m) by {
        if v < m {
            assert(v < 128 ==> (v as u8) as u64 == v) by (bit_vector);
        } else {
            assert(m < 128 ==> (m as u8) as u64 == m) by (bit_vector);
        }
    }
    if bits == 3 {
        assert(x <= 7 ==> (0x20u8 | x) & (1u8 << 3u8) == 0 && (0x20u8 | x) & 0x80u8 == 0
            && (0x20u8 | x) & 0xc0u8 != 0x40u8 && (0x20u8 | x) & 0xe0u8 == 0x20u8) by (bit_vector);
    } else {
        assert(x <= 127 ==> (0u8 | x) & (1u8 << 7u8) == 0) by (bit_vector);
    }
}

/// A string written without Huffman coding reads back, whatever follows.
proof fn lemma_string_roundtrip(chars: Seq<char>, bits: u8, mask: u8, rest: Seq<u8>)
    requires
        spec_line_prefix(bits, mask),
        spec_encode_prefix_int(encode_utf8(chars).len() as u64, bits, mask).len() + encode_utf8(chars).len()
            + rest.len() <= usize::MAX,
        encode_utf8(chars).len() <= u64::MAX,
    ensures
        ({
            let b = encode_utf8(chars);
            let e = spec_encode_prefix_int(b.len() as u64, bits, mask);
            spec_decode_string(e + b + rest, bits) == Parsed::Value(chars, e.len() + b.len())
        }),
{
    let b = encode_utf8(chars);
    let e = spec_encode_prefix_int(b.len() as u64, bits, mask);
    let s = e + b + rest;
    assert(s =~= e + (b + rest));
    lemma_prefix_int_roundtrip(b.len() as u64, bits, mask, b + rest);
    lemma_first_byte(b.len() as u64, bits, mask);
    assert(s[0] == e[0]);
    assert(s.subrange(e.len() as int, (e.len() + b.len()) as int) =~= b);
    encode_utf8_valid_utf8(chars);
    encode_utf8_decode_utf8(chars);
}

/// One field line reads back from its bytes, whatever follows.
proof fn lemma_field_line_roundtrip(name: Seq<char>, value: Seq<char>, rest: Seq<u8>)
    requires
        spec_encode_field_line(name, value).len() + rest.len() <= usize::MAX,
    ensures
        spec_field_line(spec_encode_field_line(name, value) + rest)
            == Parsed::Value((name, value), spec_encode_field_line(name, value).len()),
{
    let nb = encode_utf8(name);
    let vb = encode_utf8(value);
    let e1 = spec_encode_prefix_int(nb.len() as u64, 3, 0x20);
    let e2 = spec_encode_prefix_int(vb.len() as u64, 7, 0);
    let s = spec_encode_field_line(name, value) + rest;
    assert(s =~= e1 + nb + (e2 + vb + rest));
    lemma_string_roundtrip(name, 3, 0x20, e2 + vb + rest);
    let n1 = e1.len() + nb.len();
    assert(s.skip(n1 as int) =~= e2 + vb + rest);
    lemma_string_roundtrip(value, 7, 0, rest);
    lemma_first_byte(nb.len() as u64, 3, 0x20);
    assert(s[0] == e1[0]);
}

/// Field lines read back from their bytes.
proof fn lemma_field_lines_roundtrip(h: Seq<(Seq<char>, Seq<char>)>)
    requires
        spec_encode_field_lines(h).len() <= usize::MAX,
    ensures
        spec_field_lines(spec_encode_field_lines(h)) == HeaderBlock::Headers(h),
    decreases h.len(),
{
    if h.len() == 0 {
        assert(h =~= Seq::<(Seq<char>, Seq<char>)>::empty());
    } else {
        let (name, value) = h[0];
        let line = spec_encode_field_line(name, value);
        let tail = spec_encode_field_lines(h.skip(1));
        let s = spec_encode_field_lines(h);
        assert(s == line + tail);
        lemma_field_line_roundtrip(name, value, tail);
        assert(s.skip(line.len() as int) =~= tail);
        lemma_field_lines_roundtrip(h.skip(1));
        assert(seq![(name, value)] + h.skip(1) =~= h);
    }
}

/// A field section written by [`encode_header_block`] reads back as the
/// same name and value pairs, when it fits in memory.
pub proof fn law_header_block_roundtrip(h: Seq<(Seq<char>, Seq<char>)>)
    requires
        spec_encode_header_block(h).len() <= usize::MAX,
    ensures
        spec_decode_header_block(spec_encode_header_block(h)) == HeaderBlock::Headers(h),
{
    let s = spec_encode_header_block(h);
    let lines = spec_encode_field_lines(h);
    lemma_max_prefix(8);
    lemma_max_prefix(7);
    lemma2_to64();
    assert(spec_max_prefix(8) == 255);
    assert(spec_max_prefix(7) == 127);
    assert(s[0] == 0u8 && s[1] == 0u8);
    assert(((0u8 as u64) & 255u64) == 0) by (bit_vector);
    assert(((0u8 as u64) & 127u64) == 0) by (bit_vector);
    assert(s.skip(1)[0] == 0u8);
    assert(s.skip(2) =~= lines);
    lemma_field_lines_roundtrip(h);
}

// ---------------------------------------------------------------------------
// Huffman coding
// ---------------------------------------------------------------------------

/// The HPACK Huffman code of symbol `sym`: its bits,
/// right-aligned, and its length; symbol 256 is EOS.
pub open spec fn spec_huffman_code(sym: usize) -> (u32, u8) {
    match sym {
        0 => (0x1ff8, 13),
        1 => (0x7fffd8, 23),
        2 => (0xfffffe2, 28),
        3 => (0xfffffe3, 28),
        4 => (0xfffffe4, 28),
        5 => (0xfffffe5, 28),
        6 => (0xfffffe6, 28),
        7 => (0xfffffe7, 28),
        8 => (0xfffffe8, 28),
        9 => (0xffffea, 24),
        10 => (0x3ffffffc, 30),
        11 => (0xfffffe9, 28),
        12 => (0xfffffea, 28),
        13 => (0x3ffffffd, 30),
        14 => (0xfffffeb, 28),
        15 => (0xfffffec, 28),
        16 => (0xfffffed, 28),
        17 => (0xfffffee, 28),
        18 => (0xfffffef, 28),
        19 => (0xffffff0, 28),
        20 => (0xffffff1, 28),
        21 => (0xffffff2, 28),
        22 => (0x3ffffffe, 30),
        23 => (0xffffff3, 28),
        24 => (0xffffff4, 28),
        25 => (0xffffff5, 28),
        26 => (0xffffff6, 28),
        27 => (0xffffff7, 28),
        28 => (0xffffff8, 28),
        29 => (0xffffff9, 28),
        30 => (0xffffffa, 28),
        31 => (0xffffffb, 28),
        32 => (0x14, 6),
        33 => (0x3f8, 10),
        34 => (0x3f9, 10),
        35 => (0xffa, 12),
        36 => (0x1ff9, 13),
        37 => (0x15, 6),
        38 => (0xf8, 8),
        39 => (0x7fa, 11),
        40 => (0x3fa, 10),
        41 => (0x3fb, 10),
        42 => (0xf9, 8),
        43 => (0x7fb, 11),
        44 => (0xfa, 8),
        45 => (0x16, 6),
        46 => (0x17, 6),
        47 => (0x18, 6),
        48 => (0x0, 5),
        49 => (0x1, 5),
        50 => (0x2, 5),
        51 => (0x19, 6),
        52 => (0x1a, 6),
        53 => (0x1b, 6),
        54 => (0x1c, 6),
        55 => (0x1d, 6),
        56 => (0x1e, 6),
        57 => (0x1f, 6),
        58 => (0x5c, 7),
        59 => (0xfb, 8),
        60 => (0x7ffc, 15),
        61 => (0x20, 6),
        62 => (0xffb, 12),
        63 => (0x3fc, 10),
        64 => (0x1ffa, 13),
        65 => (0x21, 6),
        66 => (0x5d, 7),
        67 => (0x5e, 7),
        68 => (0x5f, 7),
        69 => (0x60, 7),
        70 => (0x61, 7),
        71 => (0x62, 7),
        72 => (0x63, 7),
        73 => (0x64, 7),
        74 => (0x65, 7),
        75 => (0x66, 7),
        76 => (0x67, 7),
        77 => (0x68, 7),
        78 => (0x69, 7),
        79 => (0x6a, 7),
        80 => (0x6b, 7),
        81 => (0x6c, 7),
        82 => (0x6d, 7),
        83 => (0x6e, 7),
        84 => (0x6f, 7),
        85 => (0x70, 7),
        86 => (0x71, 7),
        87 => (0x72, 7),
        88 => (0xfc, 8),
        89 => (0x73, 7),
        90 => (0xfd, 8),
        91 => (0x1ffb, 13),
        92 => (0x7fff0, 19),
        93 => (0x1ffc, 13),
        94 => (0x3ffc, 14),
        95 => (0x22, 6),
        96 => (0x7ffd, 15),
        97 => (0x3, 5),
        98 => (0x23, 6),
        99 => (0x4, 5),
        100 => (0x24, 6),
        101 => (0x5, 5),
        102 => (0x25, 6),
        103 => (0x26, 6),
        104 => (0x27, 6),
        105 => (0x6, 5),
        106 => (0x74, 7),
        107 => (0x75, 7),
        108 => (0x28, 6),
        109 => (0x29, 6),
        110 => (0x2a, 6),
        111 => (0x7, 5),
        112 => (0x2b, 6),
        113 => (0x76, 7),
        114 => (0x2c, 6),
        115 => (0x8, 5),
        116 => (0x9, 5),
        117 => (0x2d, 6),
        118 => (0x77, 7),
        119 => (0x78, 7),
        120 => (0x79, 7),
        121 => (0x7a, 7),
        122 => (0x7b, 7),
        123 => (0x7ffe, 15),
        124 => (0x7fc, 11),
        125 => (0x3ffd, 14),
        126 => (0x1ffd, 13),
        127 => (0xffffffc, 28),
        128 => (0xfffe6, 20),
        129 => (0x3fffd2, 22),
        130 => (0xfffe7, 20),
        131 => (0xfffe8, 20),
        132 => (0x3fffd3, 22),
        133 => (0x3fffd4, 22),
        134 => (0x3fffd5, 22),
        135 => (0x7fffd9, 23),
        136 => (0x3fffd6, 22),
        137 => (0x7fffda, 23),
        138 => (0x7fffdb, 23),
        139 => (0x7fffdc, 23),
        140 => (0x7fffdd, 23),
        141 => (0x7fffde, 23),
        142 => (0xffffeb, 24),
        143 => (0x7fffdf, 23),
        144 => (0xffffec, 24),
        145 => (0xffffed, 24),
        146 => (0x3fffd7, 22),
        147 => (0x7fffe0, 23),
        148 => (0xffffee, 24),
        149 => (0x7fffe1, 23),
        150 => (0x7fffe2, 23),
        151 => (0x7fffe3, 23),
        152 => (0x7fffe4, 23),
        153 => (0x1fffdc, 21),
        154 => (0x3fffd8, 22),
        155 => (0x7fffe5, 23),
        156 => (0x3fffd9, 22),
        157 => (0x7fffe6, 23),
        158 => (0x7fffe7, 23),
        159 => (0xffffef, 24),
        160 => (0x3fffda, 22),
        161 => (0x1fffdd, 21),
        162 => (0xfffe9, 20),
        163 => (0x3fffdb, 22),
        164 => (0x3fffdc, 22),
        165 => (0x7fffe8, 23),
        166 => (0x7fffe9, 23),
        167 => (0x1fffde, 21),
        168 => (0x7fffea, 23),
        169 => (0x3fffdd, 22),
        170 => (0x3fffde, 22),
        171 => (0xfffff0, 24),
        172 => (0x1fffdf, 21),
        173 => (0x3fffdf, 22),
        174 => (0x7fffeb, 23),
        175 => (0x7fffec, 23),
        176 => (0x1fffe0, 21),
        177 => (0x1fffe1, 21),
        178 => (0x3fffe0, 22),
        179 => (0x1fffe2, 21),
        180 => (0x7fffed, 23),
        181 => (0x3fffe1, 22),
        182 => (0x7fffee, 23),
        183 => (0x7fffef, 23),
        184 => (0xfffea, 20),
        185 => (0x3fffe2, 22),
        186 => (0x3fffe3, 22),
        187 => (0x3fffe4, 22),
        188 => (0x7ffff0, 23),
        189 => (0x3fffe5, 22),
        190 => (0x3fffe6, 22),
        191 => (0x7ffff1, 23),
        192 => (0x3ffffe0, 26),
        193 => (0x3ffffe1, 26),
        194 => (0xfffeb, 20),
        195 => (0x7fff1, 19),
        196 => (0x3fffe7, 22),
        197 => (0x7ffff2, 23),
        198 => (0x3fffe8, 22),
        199 => (0x1ffffec, 25),
        200 => (0x3ffffe2, 26),
        201 => (0x3ffffe3, 26),
        202 => (0x3ffffe4, 26),
        203 => (0x7ffffde, 27),
        204 => (0x7ffffdf, 27),
        205 => (0x3ffffe5, 26),
        206 => (0xfffff1, 24),
        207 => (0x1ffffed, 25),
        208 => (0x7fff2, 19),
        209 => (0x1fffe3, 21),
        210 => (0x3ffffe6, 26),
        211 => (0x7ffffe0, 27),
        212 => (0x7ffffe1, 27),
        213 => (0x3ffffe7, 26),
        214 => (0x7ffffe2, 27),
        215 => (0xfffff2, 24),
        216 => (0x1fffe4, 21),
        217 => (0x1fffe5, 21),
        218 => (0x3ffffe8, 26),
        219 => (0x3ffffe9, 26),
        220 => (0xffffffd, 28),
        221 => (0x7ffffe3, 27),
        222 => (0x7ffffe4, 27),
        223 => (0x7ffffe5, 27),
        224 => (0xfffec, 20),
        225 => (0xfffff3, 24),
        226 => (0xfffed, 20),
        227 => (0x1fffe6, 21),
        228 => (0x3fffe9, 22),
        229 => (0x1fffe7, 21),
        230 => (0x1fffe8, 21),
        231 => (0x7ffff3, 23),
        232 => (0x3fffea, 22),
        233 => (0x3fffeb, 22),
        234 => (0x1ffffee, 25),
        235 => (0x1ffffef, 25),
        236 => (0xfffff4, 24),
        237 => (0xfffff5, 24),
        238 => (0x3ffffea, 26),
        239 => (0x7ffff4, 23),
        240 => (0x3ffffeb, 26),
        241 => (0x7ffffe6, 27),
        242 => (0x3ffffec, 26),
        243 => (0x3ffffed, 26),
        244 => (0x7ffffe7, 27),
        245 => (0x7ffffe8, 27),
        246 => (0x7ffffe9, 27),
        247 => (0x7ffffea, 27),
        248 => (0x7ffffeb, 27),
        249 => (0xffffffe, 28),
        250 => (0x7ffffec, 27),
        251 => (0x7ffffed, 27),
        252 => (0x7ffffee, 27),
        253 => (0x7ffffef, 27),
        254 => (0x7fffff0, 27),
        255 => (0x3ffffee, 26),
        _ => (0x3fffffff, 30),
    }
}

/// The code of symbol `sym`, as [`spec_huffman_code`] gives it.
fn huffman_code(sym: usize) -> (r: (u32, u8))
    requires
        sym <= 256,
    ensures
        r == spec_huffman_code(sym),
        5 <= r.1 <= 30,
        r.0 < 0x4000_0000,
{
    match sym {
        0 => (0x1ff8, 13),
        1 => (0x7fffd8, 23),
        2 => (0xfffffe2, 28),
        3 => (0xfffffe3, 28),
        4 => (0xfffffe4, 28),
        5 => (0xfffffe5, 28),
        6 => (0xfffffe6, 28),
        7 => (0xfffffe7, 28),
        8 => (0xfffffe8, 28),
        9 => (0xffffea, 24),
        10 => (0x3ffffffc, 30),
        11 => (0xfffffe9, 28),
        12 => (0xfffffea, 28),
        13 => (0x3ffffffd, 30),
        14 => (0xfffffeb, 28),
        15 => (0xfffffec, 28),
        16 => (0xfffffed, 28),
        17 => (0xfffffee, 28),
        18 => (0xfffffef, 28),
        19 => (0xffffff0, 28),
        20 => (0xffffff1, 28),
        21 => (0xffffff2, 28),
        22 => (0x3ffffffe, 30),
        23 => (0xffffff3, 28),
        24 => (0xffffff4, 28),
        25 => (0xffffff5, 28),
        26 => (0xffffff6, 28),
        27 => (0xffffff7, 28),
        28 => (0xffffff8, 28),
        29 => (0xffffff9, 28),
        30 => (0xffffffa, 28),
        31 => (0xffffffb, 28),
        32 => (0x14, 6),
        33 => (0x3f8, 10),
        34 => (0x3f9, 10),
        35 => (0xffa, 12),
        36 => (0x1ff9, 13),
        37 => (0x15, 6),
        38 => (0xf8, 8),
        39 => (0x7fa, 11),
        40 => (0x3fa, 10),
        41 => (0x3fb, 10),
        42 => (0xf9, 8),
        43 => (0x7fb, 11),
        44 => (0xfa, 8),
        45 => (0x16, 6),
        46 => (0x17, 6),
        47 => (0x18, 6),
        48 => (0x0, 5),
        49 => (0x1, 5),
        50 => (0x2, 5),
        51 => (0x19, 6),
        52 => (0x1a, 6),
        53 => (0x1b, 6),
        54 => (0x1c, 6),
        55 => (0x1d, 6),
        56 => (0x1e, 6),
        57 => (0x1f, 6),
        58 => (0x5c, 7),
        59 => (0xfb, 8),
        60 => (0x7ffc, 15),
        61 => (0x20, 6),
        62 => (0xffb, 12),
        63 => (0x3fc, 10),
        64 => (0x1ffa, 13),
        65 => (0x21, 6),
        66 => (0x5d, 7),
        67 => (0x5e, 7),
        68 => (0x5f, 7),
        69 => (0x60, 7),
        70 => (0x61, 7),
        71 => (0x62, 7),
        72 => (0x63, 7),
        73 => (0x64, 7),
        74 => (0x65, 7),
        75 => (0x66, 7),
        76 => (0x67, 7),
        77 => (0x68, 7),
        78 => (0x69, 7),
        79 => (0x6a, 7),
        80 => (0x6b, 7),
        81 => (0x6c, 7),
        82 => (0x6d, 7),
        83 => (0x6e, 7),
        84 => (0x6f, 7),
        85 => (0x70, 7),
        86 => (0x71, 7),
        87 => (0x72, 7),
        88 => (0xfc, 8),
        89 => (0x73, 7),
        90 => (0xfd, 8),
        91 => (0x1ffb, 13),
        92 => (0x7fff0, 19),
        93 => (0x1ffc, 13),
        94 => (0x3ffc, 14),
        95 => (0x22, 6),
        96 => (0x7ffd, 15),
        97 => (0x3, 5),
        98 => (0x23, 6),
        99 => (0x4, 5),
        100 => (0x24, 6),
        101 => (0x5, 5),
        102 => (0x25, 6),
        103 => (0x26, 6),
        104 => (0x27, 6),
        105 => (0x6, 5),
        106 => (0x74, 7),
        107 => (0x75, 7),
        108 => (0x28, 6),
        109 => (0x29, 6),
        110 => (0x2a, 6),
        111 => (0x7, 5),
        112 => (0x2b, 6),
        113 => (0x76, 7),
        114 => (0x2c, 6),
        115 => (0x8, 5),
        116 => (0x9, 5),
        117 => (0x2d, 6),
        118 => (0x77, 7),
        119 => (0x78, 7),
        120 => (0x79, 7),
        121 => (0x7a, 7),
        122 => (0x7b, 7),
        123 => (0x7ffe, 15),
        124 => (0x7fc, 11),
        125 => (0x3ffd, 14),
        126 => (0x1ffd, 13),
        127 => (0xffffffc, 28),
        128 => (0xfffe6, 20),
        129 => (0x3fffd2, 22),
        130 => (0xfffe7, 20),
        131 => (0xfffe8, 20),
        132 => (0x3fffd3, 22),
        133 => (0x3fffd4, 22),
        134 => (0x3fffd5, 22),
        135 => (0x7fffd9, 23),
        136 => (0x3fffd6, 22),
        137 => (0x7fffda, 23),
        138 => (0x7fffdb, 23),
        139 => (0x7fffdc, 23),
        140 => (0x7fffdd, 23),
        141 => (0x7fffde, 23),
        142 => (0xffffeb, 24),
        143 => (0x7fffdf, 23),
        144 => (0xffffec, 24),
        145 => (0xffffed, 24),
        146 => (0x3fffd7, 22),
        147 => (0x7fffe0, 23),
        148 => (0xffffee, 24),
        149 => (0x7fffe1, 23),
        150 => (0x7fffe2, 23),
        151 => (0x7fffe3, 23),
        152 => (0x7fffe4, 23),
        153 => (0x1fffdc, 21),
        154 => (0x3fffd8, 22),
        155 => (0x7fffe5, 23),
        156 => (0x3fffd9, 22),
        157 => (0x7fffe6, 23),
        158 => (0x7fffe7, 23),
        159 => (0xffffef, 24),
        160 => (0x3fffda, 22),
        161 => (0x1fffdd, 21),
        162 => (0xfffe9, 20),
        163 => (0x3fffdb, 22),
        164 => (0x3fffdc, 22),
        165 => (0x7fffe8, 23),
        166 => (0x7fffe9, 23),
        167 => (0x1fffde, 21),
        168 => (0x7fffea, 23),
        169 => (0x3fffdd, 22),
        170 => (0x3fffde, 22),
        171 => (0xfffff0, 24),
        172 => (0x1fffdf, 21),
        173 => (0x3fffdf, 22),
        174 => (0x7fffeb, 23),
        175 => (0x7fffec, 23),
        176 => (0x1fffe0, 21),
        177 => (0x1fffe1, 21),
        178 => (0x3fffe0, 22),
        179 => (0x1fffe2, 21),
        180 => (0x7fffed, 23),
        181 => (0x3fffe1, 22),
        182 => (0x7fffee, 23),
        183 => (0x7fffef, 23),
        184 => (0xfffea, 20),
        185 => (0x3fffe2, 22),
        186 => (0x3fffe3, 22),
        187 => (0x3fffe4, 22),
        188 => (0x7ffff0, 23),
        189 => (0x3fffe5, 22),
        190 => (0x3fffe6, 22),
        191 => (0x7ffff1, 23),
        192 => (0x3ffffe0, 26),
        193 => (0x3ffffe1, 26),
        194 => (0xfffeb, 20),
        195 => (0x7fff1, 19),
        196 => (0x3fffe7, 22),
        197 => (0x7ffff2, 23),
        198 => (0x3fffe8, 22),
        199 => (0x1ffffec, 25),
        200 => (0x3ffffe2, 26),
        201 => (0x3ffffe3, 26),
        202 => (0x3ffffe4, 26),
        203 => (0x7ffffde, 27),
        204 => (0x7ffffdf, 27),
        205 => (0x3ffffe5, 26),
        206 => (0xfffff1, 24),
        207 => (0x1ffffed, 25),
        208 => (0x7fff2, 19),
        209 => (0x1fffe3, 21),
        210 => (0x3ffffe6, 26),
        211 => (0x7ffffe0, 27),
        212 => (0x7ffffe1, 27),
        213 => (0x3ffffe7, 26),
        214 => (0x7ffffe2, 27),
        215 => (0xfffff2, 24),
        216 => (0x1fffe4, 21),
        217 => (0x1fffe5, 21),
        218 => (0x3ffffe8, 26),
        219 => (0x3ffffe9, 26),
        220 => (0xffffffd, 28),
        221 => (0x7ffffe3, 27),
        222 => (0x7ffffe4, 27),
        223 => (0x7ffffe5, 27),
        224 => (0xfffec, 20),
        225 => (0xfffff3, 24),
        226 => (0xfffed, 20),
        227 => (0x1fffe6, 21),
        228 => (0x3fffe9, 22),
        229 => (0x1fffe7, 21),
        230 => (0x1fffe8, 21),
        231 => (0x7ffff3, 23),
        232 => (0x3fffea, 22),
        233 => (0x3fffeb, 22),
        234 => (0x1ffffee, 25),
        235 => (0x1ffffef, 25),
        236 => (0xfffff4, 24),
        237 => (0xfffff5, 24),
        238 => (0x3ffffea, 26),
        239 => (0x7ffff4, 23),
        240 => (0x3ffffeb, 26),
        241 => (0x7ffffe6, 27),
        242 => (0x3ffffec, 26),
        243 => (0x3ffffed, 26),
        244 => (0x7ffffe7, 27),
        245 => (0x7ffffe8, 27),
        246 => (0x7ffffe9, 27),
        247 => (0x7ffffea, 27),
        248 => (0x7ffffeb, 27),
        249 => (0xffffffe, 28),
        250 => (0x7ffffec, 27),
        251 => (0x7ffffed, 27),
        252 => (0x7ffffee, 27),
        253 => (0x7ffffef, 27),
        254 => (0x7fffff0, 27),
        255 => (0x3ffffee, 26),
        _ => (0x3fffffff, 30),
    }
}

/// Whether symbol `sym` has the code of `len` bits whose value is `acc`.
pub open spec fn spec_code_is(sym: nat, acc: nat, len: nat) -> bool {
    let (c, l) = spec_huffman_code(sym as usize);
    c as nat == acc && l as nat == len
}

/// Whether the code of symbol `sym` is longer than `len` bits and starts
/// with the `len` bits whose value is `acc`.
pub open spec fn spec_code_extends(sym: nat, acc: nat, len: nat) -> bool {
    let (c, l) = spec_huffman_code(sym as usize);
    l as nat > len && (c >> ((l as nat - len) as u32)) as nat == acc
}

/// The first symbol from `from` on, below 256, whose code is the `len`
/// bits of value `acc`.
pub open spec fn spec_find_symbol(acc: nat, len: nat, from: nat) -> Option<nat>
    decreases 256 - from,
{
    if from >= 256 {
        None
    } else if spec_code_is(from, acc, len) {
        Some(from)
    } else {
        spec_find_symbol(acc, len, from + 1)
    }
}

/// Whether a symbol from `from` on, below 256, has a longer code that
/// starts with the `len` bits of value `acc`.
pub open spec fn spec_any_extension(acc: nat, len: nat, from: nat) -> bool
    decreases 256 - from,
{
    if from >= 256 {
        false
    } else {
        spec_code_extends(from, acc, len) || spec_any_extension(acc, len, from + 1)
    }
}

/// Bit `j` of `data`, most significant bit of each byte first.
pub open spec fn spec_bit(data: Seq<u8>, j: nat) -> nat {
    ((data[(j / 8) as int] >> ((7 - j % 8) as u8)) & 1u8) as nat
}

/// Huffman decoding of the bits of `data` from bit `j` on, the bits read
/// since the last symbol being the `len` bits of value `acc`, and `out`
/// decoded so far: each symbol is emitted as soon as its code is read; a
/// bit after which no code can follow is an error; bits left over at the
/// end are padding.
pub open spec fn spec_huffman_from(data: Seq<u8>, j: nat, acc: nat, len: nat, out: Seq<u8>) -> Option<Seq<u8>>
    decreases 8 * data.len() - j,
{
    if j >= 8 * data.len() {
        Some(out)
    } else {
        let a = 2 * acc + spec_bit(data, j);
        let l = len + 1;
        match spec_find_symbol(a, l, 0) {
            Some(s) => spec_huffman_from(data, j + 1, 0, 0, out.push(s as u8)),
            None => if spec_any_extension(a, l, 0) {
                spec_huffman_from(data, j + 1, a, l, out)
            } else {
                None
            },
        }
    }
}

/// Huffman decoding of `data`.
pub open spec fn spec_huffman_decode(data: Seq<u8>) -> Option<Seq<u8>> {
    spec_huffman_from(data, 0, 0, 0, Seq::empty())
}

/// Every code is 5 to 30 bits long.
proof fn lemma_huffman_code_bounds(sym: usize)
    ensures
        spec_huffman_code(sym).0 < 0x4000_0000,
        5 <= spec_huffman_code(sym).1 <= 30,
{
}

/// The bits shared with a longer code fit in 29 bits and are fewer than 30.
proof fn lemma_extension_bounds(acc: nat, len: nat, from: nat)
    requires
        spec_any_extension(acc, len, from),
    ensures
        acc < 0x2000_0000,
        len < 30,
    decreases 256 - from,
{
    if spec_code_extends(from, acc, len) {
        let (c, l) = spec_huffman_code(from as usize);
        lemma_huffman_code_bounds(from as usize);
        let k = (l as nat - len) as u32;
        assert(c < 0x4000_0000 && k >= 1 ==> (c >> k) < 0x2000_0000) by (bit_vector);
    } else {
        lemma_extension_bounds(acc, len, from + 1);
    }
}

/// The symbol, below 256, whose code is the `len` bits of value `acc`.
fn find_symbol(acc: u32, len: u8) -> (r: Option<u8>)
    ensures
        match spec_find_symbol(acc as nat, len as nat, 0) {
            Some(s) => r == Some(s as u8),
            None => r is None,
        },
{
    let mut sym: usize = 0;
    while sym < 256
        invariant
            sym <= 256,
            spec_find_symbol(acc as nat, len as nat, 0) == spec_find_symbol(acc as nat, len as nat, sym as nat),
        decreases 256 - sym,
    {
        let (c, l) = huffman_code(sym);
        if c == acc && l == len {
            return Some(sym as u8);
        }
        sym = sym + 1;
    }
    None
}

/// Whether a symbol below 256 has a longer code that starts with the
/// `len` bits of value `acc`.
fn has_extension(acc: u32, len: u8) -> (r: bool)
    ensures
        r == spec_any_extension(acc as nat, len as nat, 0),
{
    let mut sym: usize = 0;
    while sym < 256
        invariant
            sym <= 256,
            spec_any_extension(acc as nat, len as nat, 0) == spec_any_extension(acc as nat, len as nat, sym as nat),
        decreases 256 - sym,
    {
        let (c, l) = huffman_code(sym);
        if l > len && (c >> ((l - len) as u32)) == acc {
            return true;
        }
        sym = sym + 1;
    }
    false
}

/// Decodes a Huffman-coded string. Bits left at the end
/// are taken as padding.
pub fn huffman_decode(data: &[u8]) -> (r: Result<Vec<u8>>)
    ensures
        match spec_huffman_decode(data@) {
            Some(b) => r matches Ok(v) && v@ == b,
            None => r matches Err(e) && e.kind() == ErrorKind::QpackError,
        },
{
    let mut result: Vec<u8> = Vec::new();
    let mut acc: u32 = 0;
    let mut len: u8 = 0;
    let mut i: usize = 0;
    while i < data.len()
        invariant
            i <= data.len(),
            acc < 0x2000_0000,
            len < 30,
            spec_huffman_decode(data@) == spec_huffman_from(data@, 8 * i as nat, acc as nat, len as nat, result@),
        decreases data.len() - i,
    {
        let byte = data[i];
        let mut k: u8 = 0;
        while k < 8
            invariant
                i < data.len(),
                byte == data@[i as int],
                k <= 8,
                acc < 0x2000_0000,
                len < 30,
                spec_huffman_decode(data@) == spec_huffman_from(data@, (8 * i + k) as nat, acc as nat, len as nat, result@),
            decreases 8 - k,
        {
            let sh: u8 = 7 - k;
            let bit: u8 = (byte >> sh) & 1;
            proof {
                let j = (8 * i + k) as nat;
                assert(j / 8 == i && j % 8 == k) by (nonlinear_arith)
                    requires
                        j == 8 * i + k,
                        k < 8,
                ;
                assert(bit <= 1) by (bit_vector)
                    requires
                        bit == (byte >> sh) & 1u8,
                ;
            }
            let a: u32 = acc * 2 + bit as u32;
            let l: u8 = len + 1;
            match find_symbol(a, l) {
                Some(s) => {
                    result.push(s);
                    acc = 0;
                    len = 0;
                },
                None => {
                    if has_extension(a, l) {
                        proof {
                            lemma_extension_bounds(a as nat, l as nat, 0);
                        }
                        acc = a;
                        len = l;
                    } else {
                        return Err(Error::QpackError("invalid Huffman code".to_owned()));
                    }
                },
            }
            k = k + 1;
        }
        assert((8 * i + 8) as nat == 8 * (i + 1) as nat);
        i = i + 1;
    }
    Ok(result)
}

// ---------------------------------------------------------------------------
// The static table
// ---------------------------------------------------------------------------

/// Entry `i` of the QPACK static table: name and
/// value.
pub open spec fn spec_static_entry(i: u64) -> Option<(Seq<char>, Seq<char>)> {
    match i {
        0 => Some((":authority"@, ""@)),
        1 => Some((":path"@, "/"@)),
        2 => Some(("age"@, "0"@)),
        3 => Some(("content-disposition"@, ""@)),
        4 => Some(("content-length"@, "0"@)),
        5 => Some(("cookie"@, ""@)),
        6 => Some(("date"@, ""@)),
        7 => Some(("etag"@, ""@)),
        8 => Some(("if-modified-since"@, ""@)),
        9 => Some(("if-none-match"@, ""@)),
        10 => Some(("last-modified"@, ""@)),
        11 => Some(("link"@, ""@)),
        12 => Some(("location"@, ""@)),
        13 => Some(("referer"@, ""@)),
        14 => Some(("set-cookie"@, ""@)),
        15 => Some((":method"@, "CONNECT"@)),
        16 => Some((":method"@, "DELETE"@)),
        17 => Some((":method"@, "GET"@)),
        18 => Some((":method"@, "HEAD"@)),
        19 => Some((":method"@, "OPTIONS"@)),
        20 => Some((":method"@, "POST"@)),
        21 => Some((":method"@, "PUT"@)),
        22 => Some((":scheme"@, "http"@)),
        23 => Some((":scheme"@, "https"@)),
        24 => Some((":status"@, "103"@)),
        25 => Some((":status"@, "200"@)),
        26 => Some((":status"@, "304"@)),
        27 => Some((":status"@, "404"@)),
        28 => Some((":status"@, "503"@)),
        29 => Some(("accept"@, "*/*"@)),
        30 => Some(("accept"@, "application/dns-message"@)),
        31 => Some(("accept-encoding"@, "gzip, deflate, br"@)),
        32 => Some(("accept-ranges"@, "bytes"@)),
        33 => Some(("access-control-allow-headers"@, "cache-control"@)),
        34 => Some(("access-control-allow-headers"@, "content-type"@)),
        35 => Some(("access-control-allow-origin"@, "*"@)),
        36 => Some(("cache-control"@, "max-age=0"@)),
        37 => Some(("cache-control"@, "max-age=2592000"@)),
        38 => Some(("cache-control"@, "max-age=604800"@)),
        39 => Some(("cache-control"@, "no-cache"@)),
        40 => Some(("cache-control"@, "no-store"@)),
        41 => Some(("cache-control"@, "public, max-age=31536000"@)),
        42 => Some(("content-encoding"@, "br"@)),
        43 => Some(("content-encoding"@, "gzip"@)),
        44 => Some(("content-type"@, "application/dns-message"@)),
        45 => Some(("content-type"@, "application/javascript"@)),
        46 => Some(("content-type"@, "application/json"@)),
        47 => Some(("content-type"@, "application/x-www-form-urlencoded"@)),
        48 => Some(("content-type"@, "image/gif"@)),
        49 => Some(("content-type"@, "image/jpeg"@)),
        50 => Some(("content-type"@, "image/png"@)),
        51 => Some(("content-type"@, "text/css"@)),
        52 => Some(("content-type"@, "text/html; charset=utf-8"@)),
        53 => Some(("content-type"@, "text/plain"@)),
        54 => Some(("content-type"@, "text/plain;charset=utf-8"@)),
        55 => Some(("range"@, "bytes=0-"@)),
        56 => Some(("strict-transport-security"@, "max-age=31536000"@)),
        57 => Some(("strict-transport-security"@, "max-age=31536000; includesubdomains"@)),
        58 => Some(("strict-transport-security"@, "max-age=31536000; includesubdomains; preload"@)),
        59 => Some(("vary"@, "accept-encoding"@)),
        60 => Some(("vary"@, "origin"@)),
        61 => Some(("x-content-type-options"@, "nosniff"@)),
        62 => Some(("x-xss-protection"@, "1; mode=block"@)),
        63 => Some((":status"@, "100"@)),
        64 => Some((":status"@, "204"@)),
        65 => Some((":status"@, "206"@)),
        66 => Some((":status"@, "302"@)),
        67 => Some((":status"@, "400"@)),
        68 => Some((":status"@, "403"@)),
        69 => Some((":status"@, "421"@)),
        70 => Some((":status"@, "425"@)),
        71 => Some((":status"@, "500"@)),
        72 => Some(("accept-language"@, ""@)),
        73 => Some(("access-control-allow-credentials"@, "FALSE"@)),
        74 => Some(("access-control-allow-credentials"@, "TRUE"@)),
        75 => Some(("access-control-allow-headers"@, "*"@)),
        76 => Some(("access-control-allow-methods"@, "get"@)),
        77 => Some(("access-control-allow-methods"@, "get, post, options"@)),
        78 => Some(("access-control-allow-methods"@, "options"@)),
        79 => Some(("access-control-expose-headers"@, "content-length"@)),
        80 => Some(("access-control-request-headers"@, "content-type"@)),
        81 => Some(("access-control-request-method"@, "get"@)),
        82 => Some(("access-control-request-method"@, "post"@)),
        83 => Some(("alt-svc"@, "clear"@)),
        84 => Some(("authorization"@, ""@)),
        85 => Some(("content-security-policy"@, "script-src 'none'; object-src 'none'; base-uri 'none'"@)),
        86 => Some(("early-data"@, "1"@)),
        87 => Some(("expect-ct"@, ""@)),
        88 => Some(("forwarded"@, ""@)),
        89 => Some(("if-range"@, ""@)),
        90 => Some(("origin"@, ""@)),
        91 => Some(("purpose"@, "prefetch"@)),
        92 => Some(("server"@, ""@)),
        93 => Some(("timing-allow-origin"@, "*"@)),
        94 => Some(("upgrade-insecure-requests"@, "1"@)),
        95 => Some(("user-agent"@, ""@)),
        96 => Some(("x-forwarded-for"@, ""@)),
        97 => Some(("x-frame-options"@, "deny"@)),
        98 => Some(("x-frame-options"@, "sameorigin"@)),
        _ => None,
    }
}

/// Entry `index` of the static table.
fn static_table_get(index: usize) -> (r: Option<(&'static str, &'static str)>)
    ensures
        match spec_static_entry(index as u64) {
            Some((n, v)) => r matches Some((a, b)) && a@ == n && b@ == v,
            None => r is None,
        },
{
    match index {
        0 => Some((":authority", "")),
        1 => Some((":path", "/")),
        2 => Some(("age", "0")),
        3 => Some(("content-disposition", "")),
        4 => Some(("content-length", "0")),
        5 => Some(("cookie", "")),
        6 => Some(("date", "")),
        7 => Some(("etag", "")),
        8 => Some(("if-modified-since", "")),
        9 => Some(("if-none-match", "")),
        10 => Some(("last-modified", "")),
        11 => Some(("link", "")),
        12 => Some(("location", "")),
        13 => Some(("referer", "")),
        14 => Some(("set-cookie", "")),
        15 => Some((":method", "CONNECT")),
        16 => Some((":method", "DELETE")),
        17 => Some((":method", "GET")),
        18 => Some((":method", "HEAD")),
        19 => Some((":method", "OPTIONS")),
        20 => Some((":method", "POST")),
        21 => Some((":method", "PUT")),
        22 => Some((":scheme", "http")),
        23 => Some((":scheme", "https")),
        24 => Some((":status", "103")),
        25 => Some((":status", "200")),
        26 => Some((":status", "304")),
        27 => Some((":status", "404")),
        28 => Some((":status", "503")),
        29 => Some(("accept", "*/*")),
        30 => Some(("accept", "application/dns-message")),
        31 => Some(("accept-encoding", "gzip, deflate, br")),
        32 => Some(("accept-ranges", "bytes")),
        33 => Some(("access-control-allow-headers", "cache-control")),
        34 => Some(("access-control-allow-headers", "content-type")),
        35 => Some(("access-control-allow-origin", "*")),
        36 => Some(("cache-control", "max-age=0")),
        37 => Some(("cache-control", "max-age=2592000")),
        38 => Some(("cache-control", "max-age=604800")),
        39 => Some(("cache-control", "no-cache")),
        40 => Some(("cache-control", "no-store")),
        41 => Some(("cache-control", "public, max-age=31536000")),
        42 => Some(("content-encoding", "br")),
        43 => Some(("content-encoding", "gzip")),
        44 => Some(("content-type", "application/dns-message")),
        45 => Some(("content-type", "application/javascript")),
        46 => Some(("content-type", "application/json")),
        47 => Some(("content-type", "application/x-www-form-urlencoded")),
        48 => Some(("content-type", "image/gif")),
        49 => Some(("content-type", "image/jpeg")),
        50 => Some(("content-type", "image/png")),
        51 => Some(("content-type", "text/css")),
        52 => Some(("content-type", "text/html; charset=utf-8")),
        53 => Some(("content-type", "text/plain")),
        54 => Some(("content-type", "text/plain;charset=utf-8")),
        55 => Some(("range", "bytes=0-")),
        56 => Some(("strict-transport-security", "max-age=31536000")),
        57 => Some(("strict-transport-security", "max-age=31536000; includesubdomains")),
        58 => Some(("strict-transport-security", "max-age=31536000; includesubdomains; preload")),
        59 => Some(("vary", "accept-encoding")),
        60 => Some(("vary", "origin")),
        61 => Some(("x-content-type-options", "nosniff")),
        62 => Some(("x-xss-protection", "1; mode=block")),
        63 => Some((":status", "100")),
        64 => Some((":status", "204")),
        65 => Some((":status", "206")),
        66 => Some((":status", "302")),
        67 => Some((":status", "400")),
        68 => Some((":status", "403")),
        69 => Some((":status", "421")),
        70 => Some((":status", "425")),
        71 => Some((":status", "500")),
        72 => Some(("accept-language", "")),
        73 => Some(("access-control-allow-credentials", "FALSE")),
        74 => Some(("access-control-allow-credentials", "TRUE")),
        75 => Some(("access-control-allow-headers", "*")),
        76 => Some(("access-control-allow-methods", "get")),
        77 => Some(("access-control-allow-methods", "get, post, options")),
        78 => Some(("access-control-allow-methods", "options")),
        79 => Some(("access-control-expose-headers", "content-length")),
        80 => Some(("access-control-request-headers", "content-type")),
        81 => Some(("access-control-request-method", "get")),
        82 => Some(("access-control-request-method", "post")),
        83 => Some(("alt-svc", "clear")),
        84 => Some(("authorization", "")),
        85 => Some(("content-security-policy", "script-src 'none'; object-src 'none'; base-uri 'none'")),
        86 => Some(("early-data", "1")),
        87 => Some(("expect-ct", "")),
        88 => Some(("forwarded", "")),
        89 => Some(("if-range", "")),
        90 => Some(("origin", "")),
        91 => Some(("purpose", "prefetch")),
        92 => Some(("server", "")),
        93 => Some(("timing-allow-origin", "*")),
        94 => Some(("upgrade-insecure-requests", "1")),
        95 => Some(("user-agent", "")),
        96 => Some(("x-forwarded-for", "")),
        97 => Some(("x-frame-options", "deny")),
        98 => Some(("x-frame-options", "sameorigin")),
        _ => None,
    }
}

/// Entry `i` of the QPACK static table of RFC 9204, Appendix A, for
/// `i` below 99: its name and value.
pub open spec fn spec_rfc9204_static_entry(i: u64) -> (Seq<char>, Seq<char>) {
    match i {
        0 => (":authority"@, ""@),
        1 => (":path"@, "/"@),
        2 => ("age"@, "0"@),
        3 => ("content-disposition"@, ""@),
        4 => ("content-length"@, "0"@),
        5 => ("cookie"@, ""@),
        6 => ("date"@, ""@),
        7 => ("etag"@, ""@),
        8 => ("if-modified-since"@, ""@),
        9 => ("if-none-match"@, ""@),
        10 => ("last-modified"@, ""@),
        11 => ("link"@, ""@),
        12 => ("location"@, ""@),
        13 => ("referer"@, ""@),
        14 => ("set-cookie"@, ""@),
        15 => (":method"@, "CONNECT"@),
        16 => (":method"@, "DELETE"@),
        17 => (":method"@, "GET"@),
        18 => (":method"@, "HEAD"@),
        19 => (":method"@, "OPTIONS"@),
        20 => (":method"@, "POST"@),
        21 => (":method"@, "PUT"@),
        22 => (":scheme"@, "http"@),
        23 => (":scheme"@, "https"@),
        24 => (":status"@, "103"@),
        25 => (":status"@, "200"@),
        26 => (":status"@, "304"@),
        27 => (":status"@, "404"@),
        28 => (":status"@, "503"@),
        29 => ("accept"@, "*/*"@),
        30 => ("accept"@, "application/dns-message"@),
        31 => ("accept-encoding"@, "gzip, deflate, br"@),
        32 => ("accept-ranges"@, "bytes"@),
        33 => ("access-control-allow-headers"@, "cache-control"@),
        34 => ("access-control-allow-headers"@, "content-type"@),
        35 => ("access-control-allow-origin"@, "*"@),
        36 => ("cache-control"@, "max-age=0"@),
        37 => ("cache-control"@, "max-age=2592000"@),
        38 => ("cache-control"@, "max-age=604800"@),
        39 => ("cache-control"@, "no-cache"@),
        40 => ("cache-control"@, "no-store"@),
        41 => ("cache-control"@, "public, max-age=31536000"@),
        42 => ("content-encoding"@, "br"@),
        43 => ("content-encoding"@, "gzip"@),
        44 => ("content-type"@, "application/dns-message"@),
        45 => ("content-type"@, "application/javascript"@),
        46 => ("content-type"@, "application/json"@),
        47 => ("content-type"@, "application/x-www-form-urlencoded"@),
        48 => ("content-type"@, "image/gif"@),
        49 => ("content-type"@, "image/jpeg"@),
        50 => ("content-type"@, "image/png"@),
        51 => ("content-type"@, "text/css"@),
        52 => ("content-type"@, "text/html; charset=utf-8"@),
        53 => ("content-type"@, "text/plain"@),
        54 => ("content-type"@, "text/plain;charset=utf-8"@),
        55 => ("range"@, "bytes=0-"@),
        56 => ("strict-transport-security"@, "max-age=31536000"@),
        57 => ("strict-transport-security"@, "max-age=31536000; includesubdomains"@),
        58 => ("strict-transport-security"@, "max-age=31536000; includesubdomains; preload"@),
        59 => ("vary"@, "accept-encoding"@),
        60 => ("vary"@, "origin"@),
        61 => ("x-content-type-options"@, "nosniff"@),
        62 => ("x-xss-protection"@, "1; mode=block"@),
        63 => (":status"@, "100"@),
        64 => (":status"@, "204"@),
        65 => (":status"@, "206"@),
        66 => (":status"@, "302"@),
        67 => (":status"@, "400"@),
        68 => (":status"@, "403"@),
        69 => (":status"@, "421"@),
        70 => (":status"@, "425"@),
        71 => (":status"@, "500"@),
        72 => ("accept-language"@, ""@),
        73 => ("access-control-allow-credentials"@, "FALSE"@),
        74 => ("access-control-allow-credentials"@, "TRUE"@),
        75 => ("access-control-allow-headers"@, "*"@),
        76 => ("access-control-allow-methods"@, "get"@),
        77 => ("access-control-allow-methods"@, "get, post, options"@),
        78 => ("access-control-allow-methods"@, "options"@),
        79 => ("access-control-expose-headers"@, "content-length"@),
        80 => ("access-control-request-headers"@, "content-type"@),
        81 => ("access-control-request-method"@, "get"@),
        82 => ("access-control-request-method"@, "post"@),
        83 => ("alt-svc"@, "clear"@),
        84 => ("authorization"@, ""@),
        85 => ("content-security-policy"@, "script-src 'none'; object-src 'none'; base-uri 'none'"@),
        86 => ("early-data"@, "1"@),
        87 => ("expect-ct"@, ""@),
        88 => ("forwarded"@, ""@),
        89 => ("if-range"@, ""@),
        90 => ("origin"@, ""@),
        91 => ("purpose"@, "prefetch"@),
        92 => ("server"@, ""@),
        93 => ("timing-allow-origin"@, "*"@),
        94 => ("upgrade-insecure-requests"@, "1"@),
        95 => ("user-agent"@, ""@),
        96 => ("x-forwarded-for"@, ""@),
        97 => ("x-frame-options"@, "deny"@),
        98 => ("x-frame-options"@, "sameorigin"@),
        _ => (Seq::empty(), Seq::empty()),
    }
}

/// The static table that field lines refer to is the one of RFC 9204:
/// entry `i` is the RFC's entry `i` for each of its 99 indices, and no
/// index past them names an entry.
pub proof fn law_static_table_rfc9204(i: u64)
    ensures
        spec_static_entry(i) == if i < 99 { Some(spec_rfc9204_static_entry(i)) } else { None },
{
}

} // verus!
