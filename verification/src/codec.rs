//! Little-endian integers in byte strings.

use vstd::prelude::*;
use byteorder::ByteOrder;

verus! {

/// The number that the first two bytes hold, least significant byte first.
pub open spec fn le_u16(b: Seq<u8>) -> int {
    b[0] as int + 256 * (b[1] as int)
}

/// The number that the first four bytes hold, least significant byte first.
pub open spec fn le_u32(b: Seq<u8>) -> int {
    b[0] as int + 256 * (b[1] as int) + 65536 * (b[2] as int) + 16777216 * (b[3] as int)
}

/// The two bytes of `n`, least significant first.
pub open spec fn u16_le_bytes(n: u16) -> Seq<u8> {
    seq![(n % 256) as u8, (n / 256) as u8]
}

/// The four bytes of `n`, least significant first.
pub open spec fn u32_le_bytes(n: u32) -> Seq<u8> {
    seq![
        (n % 256) as u8,
        (n / 256 % 256) as u8,
        (n / 65536 % 256) as u8,
        (n / 16777216) as u8,
    ]
}

/// The number that the first eight bytes hold, least significant byte first.
pub open spec fn le_u64(b: Seq<u8>) -> int {
    le_u32(b) + 4294967296 * le_u32(b.subrange(4, 8))
}

/// The eight bytes of `n`, least significant first.
pub open spec fn u64_le_bytes(n: u64) -> Seq<u8> {
    u32_le_bytes((n % 4294967296) as u32) + u32_le_bytes((n / 4294967296) as u32)
}

/// Reading the bytes that were written for a number gives the number back.
pub proof fn lemma_le_round_trip(n16: u16, n32: u32)
    ensures
        u16_le_bytes(n16).len() == 2,
        u32_le_bytes(n32).len() == 4,
        le_u16(u16_le_bytes(n16)) == n16,
        le_u32(u32_le_bytes(n32)) == n32,
{
}

/// Reading the eight bytes that were written for a number gives the number
/// back.
pub proof fn lemma_le_round_trip_u64(n: u64)
    ensures
        u64_le_bytes(n).len() == 8,
        le_u64(u64_le_bytes(n)) == n,
{
    let low = (n % 4294967296) as u32;
    let high = (n / 4294967296) as u32;
    lemma_le_round_trip(0, low);
    lemma_le_round_trip(0, high);
    let bytes = u64_le_bytes(n);
    assert(bytes.subrange(4, 8) =~= u32_le_bytes(high));
    assert(le_u32(bytes) == le_u32(u32_le_bytes(low)));
}

/// Reads an unsigned 16-bit number, least significant byte first.
///
/// Trusted: calls `byteorder::LittleEndian::read_u16`, which reads the first
/// two bytes of the buffer and panics on a shorter one.
#[verifier::external_body]
pub(crate) fn read_u16_le(buf: &[u8]) -> (n: u16)
    requires
        buf@.len() >= 2,
    ensures
        n == le_u16(buf@),
{
    byteorder::LittleEndian::read_u16(buf)
}

/// Reads an unsigned 32-bit number, least significant byte first.
///
/// Trusted: calls `byteorder::LittleEndian::read_u32`, which reads the first
/// four bytes of the buffer and panics on a shorter one.
#[verifier::external_body]
pub(crate) fn read_u32_le(buf: &[u8]) -> (n: u32)
    requires
        buf@.len() >= 4,
    ensures
        n == le_u32(buf@),
{
    byteorder::LittleEndian::read_u32(buf)
}

/// The two bytes of `n`, least significant first.
///
/// Trusted: calls `byteorder::LittleEndian::write_u16` on a buffer of two
/// bytes, which it fills.
#[verifier::external_body]
pub(crate) fn write_u16_le(n: u16) -> (r: Vec<u8>)
    ensures
        r@ == u16_le_bytes(n),
{
    let mut buf = vec![0u8; 2];
    byteorder::LittleEndian::write_u16(&mut buf, n);
    buf
}

/// The four bytes of `n`, least significant first.
///
/// Trusted: calls `byteorder::LittleEndian::write_u32` on a buffer of four
/// bytes, which it fills.
#[verifier::external_body]
pub(crate) fn write_u32_le(n: u32) -> (r: Vec<u8>)
    ensures
        r@ == u32_le_bytes(n),
{
    let mut buf = vec![0u8; 4];
    byteorder::LittleEndian::write_u32(&mut buf, n);
    buf
}

/// Reads an unsigned 64-bit number, least significant byte first.
///
/// Trusted: calls `byteorder::LittleEndian::read_u64`, which reads the first
/// eight bytes of the buffer and panics on a shorter one.
#[verifier::external_body]
pub(crate) fn read_u64_le(buf: &[u8]) -> (n: u64)
    requires
        buf@.len() >= 8,
    ensures
        n == le_u64(buf@),
{
    byteorder::LittleEndian::read_u64(buf)
}

/// The eight bytes of `n`, least significant first.
///
/// Trusted: calls `byteorder::LittleEndian::write_u64` on a buffer of eight
/// bytes, which it fills.
#[verifier::external_body]
pub(crate) fn write_u64_le(n: u64) -> (r: Vec<u8>)
    ensures
        r@ == u64_le_bytes(n),
{
    let mut buf = vec![0u8; 8];
    byteorder::LittleEndian::write_u64(&mut buf, n);
    buf
}

} // verus!
