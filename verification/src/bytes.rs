//! Byte-level primitives: how a `u32` count or tag and the 64 raw bits of a
//! double are laid out in either byte order, verified reads at arbitrary
//! (unaligned) offsets, verified appends, and the NaN bit test that the
//! empty-point sentinel rests on.

use vstd::prelude::*;

use crate::common::{Endianness, WKBError};

verus! {

/// The bit pattern a quiet NaN double is written with (the pattern of
/// `f64::NAN`).
pub const NAN_BITS: u64 = 0x7ff8000000000000;

/// Whether a 64-bit pattern is a NaN double: exponent all ones, mantissa
/// non-zero.
pub open spec fn is_nan_bits(x: u64) -> bool {
    x & 0x7ff0000000000000 == 0x7ff0000000000000 && x & 0x000fffffffffffff != 0
}

/// The written NaN pattern is itself a NaN, so an empty point written by the
/// encoder is recognised by the decoder.
pub proof fn lemma_nan_bits_is_nan()
    ensures
        is_nan_bits(NAN_BITS),
{
    assert(0x7ff8000000000000u64 & 0x7ff0000000000000 == 0x7ff0000000000000) by (bit_vector);
    assert(0x7ff8000000000000u64 & 0x000fffffffffffff != 0) by (bit_vector);
}

/// Whether a 64-bit pattern is a NaN double.
#[verifier::when_used_as_spec(is_nan_bits)]
pub fn u64_is_nan_bits(x: u64) -> (r: bool)
    ensures
        r == is_nan_bits(x),
{
    x & 0x7ff0000000000000 == 0x7ff0000000000000 && x & 0x000fffffffffffff != 0
}

/// Multiplication respects bounds on both factors.
pub proof fn lemma_mul_le(a: int, ca: int, b: int, cb: int)
    requires
        0 <= a <= ca,
        0 <= b <= cb,
    ensures
        a * b <= ca * cb,
{
    assert(a * b <= ca * cb) by (nonlinear_arith)
        requires
            0 <= a <= ca,
            0 <= b <= cb,
    ;
}

/// The four bytes of a `u32` in the given byte order.
pub open spec fn u32_bytes(v: u32, order: Endianness) -> Seq<u8> {
    match order {
        Endianness::LittleEndian => seq![
            (v & 0xff) as u8,
            ((v >> 8) & 0xff) as u8,
            ((v >> 16) & 0xff) as u8,
            ((v >> 24) & 0xff) as u8,
        ],
        Endianness::BigEndian => seq![
            ((v >> 24) & 0xff) as u8,
            ((v >> 16) & 0xff) as u8,
            ((v >> 8) & 0xff) as u8,
            (v & 0xff) as u8,
        ],
    }
}

/// The eight bytes of a double's bit pattern in the given byte order.
pub open spec fn u64_bytes(v: u64, order: Endianness) -> Seq<u8> {
    match order {
        Endianness::LittleEndian => seq![
            (v & 0xff) as u8,
            ((v >> 8) & 0xff) as u8,
            ((v >> 16) & 0xff) as u8,
            ((v >> 24) & 0xff) as u8,
            ((v >> 32) & 0xff) as u8,
            ((v >> 40) & 0xff) as u8,
            ((v >> 48) & 0xff) as u8,
            ((v >> 56) & 0xff) as u8,
        ],
        Endianness::BigEndian => seq![
            ((v >> 56) & 0xff) as u8,
            ((v >> 48) & 0xff) as u8,
            ((v >> 40) & 0xff) as u8,
            ((v >> 32) & 0xff) as u8,
            ((v >> 24) & 0xff) as u8,
            ((v >> 16) & 0xff) as u8,
            ((v >> 8) & 0xff) as u8,
            (v & 0xff) as u8,
        ],
    }
}

/// Recombines four little-endian bytes into a `u32`.
pub open spec fn u32_from_le_bytes(b0: u8, b1: u8, b2: u8, b3: u8) -> u32 {
    (b0 as u32) | (b1 as u32) << 8 | (b2 as u32) << 16 | (b3 as u32) << 24
}

/// The `u32` whose four bytes sit at offset `o` of `b` in the given order.
pub open spec fn u32_at(b: Seq<u8>, o: int, order: Endianness) -> u32 {
    match order {
        Endianness::LittleEndian => u32_from_le_bytes(b[o], b[o + 1], b[o + 2], b[o + 3]),
        Endianness::BigEndian => u32_from_le_bytes(b[o + 3], b[o + 2], b[o + 1], b[o]),
    }
}

/// Recombines eight little-endian bytes into a `u64`.
pub open spec fn u64_from_le_bytes(
    b0: u8,
    b1: u8,
    b2: u8,
    b3: u8,
    b4: u8,
    b5: u8,
    b6: u8,
    b7: u8,
) -> u64 {
    (b0 as u64) | (b1 as u64) << 8 | (b2 as u64) << 16 | (b3 as u64) << 24 | (b4 as u64) << 32 | (
    b5 as u64) << 40 | (b6 as u64) << 48 | (b7 as u64) << 56
}

/// The `u64` whose eight bytes sit at offset `o` of `b` in the given order.
pub open spec fn u64_at(b: Seq<u8>, o: int, order: Endianness) -> u64 {
    match order {
        Endianness::LittleEndian => u64_from_le_bytes(
            b[o],
            b[o + 1],
            b[o + 2],
            b[o + 3],
            b[o + 4],
            b[o + 5],
            b[o + 6],
            b[o + 7],
        ),
        Endianness::BigEndian => u64_from_le_bytes(
            b[o + 7],
            b[o + 6],
            b[o + 5],
            b[o + 4],
            b[o + 3],
            b[o + 2],
            b[o + 1],
            b[o],
        ),
    }
}

/// Reading back the four bytes a `u32` was written with gives the value:
/// the integer layout round-trips in both byte orders.
pub proof fn lemma_u32_bytes_roundtrip(v: u32, order: Endianness, b: Seq<u8>, o: int)
    requires
        0 <= o,
        o + 4 <= b.len(),
        b.subrange(o, o + 4) == u32_bytes(v, order),
    ensures
        u32_at(b, o, order) == v,
{
    let s = b.subrange(o, o + 4);
    assert(b[o] == s[0] && b[o + 1] == s[1] && b[o + 2] == s[2] && b[o + 3] == s[3]);
    assert(((v & 0xff) as u8 as u32) | (((v >> 8) & 0xff) as u8 as u32) << 8 | (((v >> 16)
        & 0xff) as u8 as u32) << 16 | (((v >> 24) & 0xff) as u8 as u32) << 24 == v)
        by (bit_vector);
}

/// Reading back the eight bytes a `u64` was written with gives the value.
pub proof fn lemma_u64_bytes_roundtrip(v: u64, order: Endianness, b: Seq<u8>, o: int)
    requires
        0 <= o,
        o + 8 <= b.len(),
        b.subrange(o, o + 8) == u64_bytes(v, order),
    ensures
        u64_at(b, o, order) == v,
{
    let s = b.subrange(o, o + 8);
    assert(b[o] == s[0] && b[o + 1] == s[1] && b[o + 2] == s[2] && b[o + 3] == s[3] && b[o + 4]
        == s[4] && b[o + 5] == s[5] && b[o + 6] == s[6] && b[o + 7] == s[7]);
    assert(((v & 0xff) as u8 as u64) | (((v >> 8) & 0xff) as u8 as u64) << 8 | (((v >> 16)
        & 0xff) as u8 as u64) << 16 | (((v >> 24) & 0xff) as u8 as u64) << 24 | (((v >> 32)
        & 0xff) as u8 as u64) << 32 | (((v >> 40) & 0xff) as u8 as u64) << 40 | (((v >> 48)
        & 0xff) as u8 as u64) << 48 | (((v >> 56) & 0xff) as u8 as u64) << 56 == v)
        by (bit_vector);
}

/// Reads the byte at `offset`, or `TruncatedBuffer` if it lies past the end.
pub fn read_u8(buf: &[u8], offset: usize) -> (r: Result<u8, WKBError>)
    ensures
        offset < buf@.len() ==> r == Ok::<_, WKBError>(buf@[offset as int]),
        offset >= buf@.len() ==> r == Err::<u8, _>(WKBError::TruncatedBuffer),
{
    if offset < buf.len() {
        Ok(buf[offset])
    } else {
        Err(WKBError::TruncatedBuffer)
    }
}

/// Reads the `u32` whose four bytes start at `offset`, in the given order,
/// or `TruncatedBuffer` if any of them lies past the end.
pub fn read_u32(buf: &[u8], offset: usize, order: Endianness) -> (r: Result<u32, WKBError>)
    ensures
        offset + 4 <= buf@.len() ==> r == Ok::<_, WKBError>(u32_at(buf@, offset as int, order)),
        offset + 4 > buf@.len() ==> r == Err::<u32, _>(WKBError::TruncatedBuffer),
{
    if buf.len() >= 4 && offset <= buf.len() - 4 {
        let b0 = buf[offset];
        let b1 = buf[offset + 1];
        let b2 = buf[offset + 2];
        let b3 = buf[offset + 3];
        let v = match order {
            Endianness::LittleEndian => (b0 as u32) | (b1 as u32) << 8 | (b2 as u32) << 16 | (
            b3 as u32) << 24,
            Endianness::BigEndian => (b3 as u32) | (b2 as u32) << 8 | (b1 as u32) << 16 | (
            b0 as u32) << 24,
        };
        Ok(v)
    } else {
        Err(WKBError::TruncatedBuffer)
    }
}

/// Reads the `u64` whose eight bytes start at `offset`, in the given order,
/// or `TruncatedBuffer` if any of them lies past the end.
pub fn read_u64(buf: &[u8], offset: usize, order: Endianness) -> (r: Result<u64, WKBError>)
    ensures
        offset + 8 <= buf@.len() ==> r == Ok::<_, WKBError>(u64_at(buf@, offset as int, order)),
        offset + 8 > buf@.len() ==> r == Err::<u64, _>(WKBError::TruncatedBuffer),
{
    if buf.len() >= 8 && offset <= buf.len() - 8 {
        let b0 = buf[offset];
        let b1 = buf[offset + 1];
        let b2 = buf[offset + 2];
        let b3 = buf[offset + 3];
        let b4 = buf[offset + 4];
        let b5 = buf[offset + 5];
        let b6 = buf[offset + 6];
        let b7 = buf[offset + 7];
        let v = match order {
            Endianness::LittleEndian => (b0 as u64) | (b1 as u64) << 8 | (b2 as u64) << 16 | (
            b3 as u64) << 24 | (b4 as u64) << 32 | (b5 as u64) << 40 | (b6 as u64) << 48 | (
            b7 as u64) << 56,
            Endianness::BigEndian => (b7 as u64) | (b6 as u64) << 8 | (b5 as u64) << 16 | (
            b4 as u64) << 24 | (b3 as u64) << 32 | (b2 as u64) << 40 | (b1 as u64) << 48 | (
            b0 as u64) << 56,
        };
        Ok(v)
    } else {
        Err(WKBError::TruncatedBuffer)
    }
}

/// Appends the four bytes of a `u32` in the given order.
pub fn write_u32(out: &mut Vec<u8>, v: u32, order: Endianness)
    ensures
        final(out)@ == old(out)@ + u32_bytes(v, order),
{
    match order {
        Endianness::LittleEndian => {
            out.push((v & 0xff) as u8);
            out.push(((v >> 8) & 0xff) as u8);
            out.push(((v >> 16) & 0xff) as u8);
            out.push(((v >> 24) & 0xff) as u8);
        },
        Endianness::BigEndian => {
            out.push(((v >> 24) & 0xff) as u8);
            out.push(((v >> 16) & 0xff) as u8);
            out.push(((v >> 8) & 0xff) as u8);
            out.push((v & 0xff) as u8);
        },
    }
    proof {
        assert(out@ =~= old(out)@ + u32_bytes(v, order));
    }
}

/// Appends the eight bytes of a double's bit pattern in the given order.
pub fn write_u64(out: &mut Vec<u8>, v: u64, order: Endianness)
    ensures
        final(out)@ == old(out)@ + u64_bytes(v, order),
{
    match order {
        Endianness::LittleEndian => {
            out.push((v & 0xff) as u8);
            out.push(((v >> 8) & 0xff) as u8);
            out.push(((v >> 16) & 0xff) as u8);
            out.push(((v >> 24) & 0xff) as u8);
            out.push(((v >> 32) & 0xff) as u8);
            out.push(((v >> 40) & 0xff) as u8);
            out.push(((v >> 48) & 0xff) as u8);
            out.push(((v >> 56) & 0xff) as u8);
        },
        Endianness::BigEndian => {
            out.push(((v >> 56) & 0xff) as u8);
            out.push(((v >> 48) & 0xff) as u8);
            out.push(((v >> 40) & 0xff) as u8);
            out.push(((v >> 32) & 0xff) as u8);
            out.push(((v >> 24) & 0xff) as u8);
            out.push(((v >> 16) & 0xff) as u8);
            out.push(((v >> 8) & 0xff) as u8);
            out.push((v & 0xff) as u8);
        },
    }
    proof {
        assert(out@ =~= old(out)@ + u64_bytes(v, order));
    }
}

/// Appends one byte.
pub fn write_u8(out: &mut Vec<u8>, v: u8)
    ensures
        final(out)@ == old(out)@ + seq![v],
{
    out.push(v);
    proof {
        assert(out@ =~= old(out)@ + seq![v]);
    }
}

} // verus!
