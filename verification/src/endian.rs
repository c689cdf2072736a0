//! Big-endian integer fields of the wire format.
//!
//! The byte layout is given by the spec functions of this module; the
//! conversions themselves are done by the `byteorder` crate.

use byteorder::{BigEndian, ByteOrder};
use vstd::prelude::*;

verus! {

/// The byte of `n` that starts `shift` bits above its least significant bit.
pub open spec fn byte_at(n: u64, shift: u64) -> u8 {
    ((n >> shift) & 0xff) as u8
}

/// The eight bytes of `n`, most significant first.
pub open spec fn u64_be(n: u64) -> Seq<u8> {
    seq![
        byte_at(n, 56),
        byte_at(n, 48),
        byte_at(n, 40),
        byte_at(n, 32),
        byte_at(n, 24),
        byte_at(n, 16),
        byte_at(n, 8),
        byte_at(n, 0),
    ]
}

/// The number whose big-endian bytes are the first eight bytes of `b`.
pub open spec fn u64_from_be(b: Seq<u8>) -> u64
    recommends
        b.len() >= 8,
{
    ((b[0] as u64) << 56) | ((b[1] as u64) << 48) | ((b[2] as u64) << 40) | ((b[3] as u64) << 32)
        | ((b[4] as u64) << 24) | ((b[5] as u64) << 16) | ((b[6] as u64) << 8) | (b[7] as u64)
}

/// The four bytes of `n`, most significant first.
pub open spec fn u32_be(n: u32) -> Seq<u8> {
    seq![byte_at(n as u64, 24), byte_at(n as u64, 16), byte_at(n as u64, 8), byte_at(n as u64, 0)]
}

/// The number whose big-endian bytes are the first four bytes of `b`.
pub open spec fn u32_from_be(b: Seq<u8>) -> u32
    recommends
        b.len() >= 4,
{
    ((b[0] as u32) << 24) | ((b[1] as u32) << 16) | ((b[2] as u32) << 8) | (b[3] as u32)
}

/// The four bytes of the two's-complement form of `n`, most significant first.
pub open spec fn i32_be(n: i32) -> Seq<u8> {
    u32_be(n as u32)
}

/// The signed number whose two's-complement big-endian bytes are the first
/// four bytes of `b`.
pub open spec fn i32_from_be(b: Seq<u8>) -> i32
    recommends
        b.len() >= 4,
{
    u32_from_be(b) as i32
}

/// Reading back the bytes of a `u64` gives the number.
pub proof fn lemma_u64_be_inverse(n: u64)
    ensures
        u64_be(n).len() == 8,
        u64_from_be(u64_be(n)) == n,
{
    assert(((((n >> 56) & 0xff) as u8) as u64) << 56 | ((((n >> 48) & 0xff) as u8) as u64) << 48 | ((((n
        >> 40) & 0xff) as u8) as u64) << 40 | ((((n >> 32) & 0xff) as u8) as u64) << 32 | ((((n
        >> 24) & 0xff) as u8) as u64) << 24 | ((((n >> 16) & 0xff) as u8) as u64) << 16 | ((((n
        >> 8) & 0xff) as u8) as u64) << 8 | ((((n >> 0) & 0xff) as u8) as u64) == n)
        by (bit_vector);
}

/// Reading back the bytes of an `i32` gives the number.
pub proof fn lemma_i32_be_inverse(n: i32)
    ensures
        i32_be(n).len() == 4,
        i32_from_be(i32_be(n)) == n,
{
    let m = n as u32;
    assert(((((((m as u64) >> 24) & 0xff) as u8) as u32) << 24 | (((((m as u64) >> 16) & 0xff) as u8) as u32)
        << 16 | (((((m as u64) >> 8) & 0xff) as u8) as u32) << 8 | (((((m as u64) >> 0) & 0xff) as u8) as u32))
        == m) by (bit_vector);
    assert((n as u32) as i32 == n) by (bit_vector);
}

/// Writing the bytes that were read gives the same eight bytes.
pub proof fn lemma_u64_from_be_inverse(b: Seq<u8>)
    requires
        b.len() == 8,
    ensures
        u64_be(u64_from_be(b)) == b,
{
    let (b0, b1, b2, b3, b4, b5, b6, b7) = (b[0], b[1], b[2], b[3], b[4], b[5], b[6], b[7]);
    let n = u64_from_be(b);
    assert(n == ((b0 as u64) << 56) | ((b1 as u64) << 48) | ((b2 as u64) << 40) | ((b3 as u64) << 32)
        | ((b4 as u64) << 24) | ((b5 as u64) << 16) | ((b6 as u64) << 8) | (b7 as u64));
    assert(n == ((b0 as u64) << 56) | ((b1 as u64) << 48) | ((b2 as u64) << 40) | ((b3 as u64) << 32)
        | ((b4 as u64) << 24) | ((b5 as u64) << 16) | ((b6 as u64) << 8) | (b7 as u64) ==> {
        &&& ((n >> 56) & 0xff) as u8 == b0
        &&& ((n >> 48) & 0xff) as u8 == b1
        &&& ((n >> 40) & 0xff) as u8 == b2
        &&& ((n >> 32) & 0xff) as u8 == b3
        &&& ((n >> 24) & 0xff) as u8 == b4
        &&& ((n >> 16) & 0xff) as u8 == b5
        &&& ((n >> 8) & 0xff) as u8 == b6
        &&& ((n >> 0) & 0xff) as u8 == b7
    }) by (bit_vector);
}

/// Writing the bytes that were read gives the same four bytes.
pub proof fn lemma_i32_from_be_inverse(b: Seq<u8>)
    requires
        b.len() == 4,
    ensures
        i32_be(i32_from_be(b)) == b,
{
    let (b0, b1, b2, b3) = (b[0], b[1], b[2], b[3]);
    let m = u32_from_be(b);
    assert((m as i32) as u32 == m) by (bit_vector);
    assert(m == ((b0 as u32) << 24) | ((b1 as u32) << 16) | ((b2 as u32) << 8) | (b3 as u32) ==> {
        &&& (((m as u64) >> 24) & 0xff) as u8 == b0
        &&& (((m as u64) >> 16) & 0xff) as u8 == b1
        &&& (((m as u64) >> 8) & 0xff) as u8 == b2
        &&& (((m as u64) >> 0) & 0xff) as u8 == b3
    }) by (bit_vector);
}

/// Calls `byteorder::BigEndian::write_u64` on a zeroed eight-byte buffer and
/// hands the buffer out. Trusted: the buffer then holds the bytes of `n`,
/// most significant first.
#[verifier::external_body]
pub(crate) fn write_u64_be(n: u64) -> (buf: [u8; 8])
    ensures
        buf@ == u64_be(n),
{
    let mut buf = [0u8; 8];
    BigEndian::write_u64(&mut buf, n);
    buf
}

/// Calls `byteorder::BigEndian::write_i32` on a zeroed four-byte buffer and
/// hands the buffer out. Trusted: the buffer then holds the two's-complement
/// bytes of `n`, most significant first.
#[verifier::external_body]
pub(crate) fn write_i32_be(n: i32) -> (buf: [u8; 4])
    ensures
        buf@ == i32_be(n),
{
    let mut buf = [0u8; 4];
    BigEndian::write_i32(&mut buf, n);
    buf
}

/// Calls `byteorder::BigEndian::read_u64`, which panics on fewer than eight
/// bytes. Trusted: the result is the number that the first eight bytes spell,
/// most significant first.
#[verifier::external_body]
pub(crate) fn read_u64_be(buf: &[u8]) -> (n: u64)
    requires
        buf@.len() >= 8,
    ensures
        n == u64_from_be(buf@),
{
    BigEndian::read_u64(buf)
}

/// Calls `byteorder::BigEndian::read_i32`, which panics on fewer than four
/// bytes. Trusted: the result is the signed number that the first four bytes
/// spell in two's complement, most significant first.
#[verifier::external_body]
pub(crate) fn read_i32_be(buf: &[u8]) -> (n: i32)
    requires
        buf@.len() >= 4,
    ensures
        n == i32_from_be(buf@),
{
    BigEndian::read_i32(buf)
}

} // verus!
