//! Big-endian integers as byte sequences.
//!
//! The executable conversions are done by the `byteorder` crate; this module
//! states what they compute and proves that reading undoes writing.

use byteorder::{BigEndian, ByteOrder};
use vstd::prelude::*;

verus! {

/// The two bytes of `n`, most significant first.
pub open spec fn be16(n: u16) -> Seq<u8> {
    seq![(n / 0x100) as u8, (n % 0x100) as u8]
}

/// The four bytes of `n`, most significant first.
pub open spec fn be32(n: u32) -> Seq<u8> {
    seq![
        (n / 0x100_0000) as u8,
        (n / 0x1_0000 % 0x100) as u8,
        (n / 0x100 % 0x100) as u8,
        (n % 0x100) as u8,
    ]
}

/// The eight bytes of `n`, most significant first.
pub open spec fn be64(n: u64) -> Seq<u8> {
    be32((n / 0x1_0000_0000) as u32) + be32((n % 0x1_0000_0000) as u32)
}

/// The number whose big-endian form is the first two bytes of `s`.
pub open spec fn be16_value(s: Seq<u8>) -> u16
    recommends
        s.len() >= 2,
{
    (s[0] as int * 0x100 + s[1] as int) as u16
}

/// The number whose big-endian form is the first four bytes of `s`.
pub open spec fn be32_value(s: Seq<u8>) -> u32
    recommends
        s.len() >= 4,
{
    (s[0] as int * 0x100_0000 + s[1] as int * 0x1_0000 + s[2] as int * 0x100 + s[3] as int) as u32
}

/// The number whose big-endian form is the first eight bytes of `s`.
pub open spec fn be64_value(s: Seq<u8>) -> u64
    recommends
        s.len() >= 8,
{
    (be32_value(s.subrange(0, 4)) as int * 0x1_0000_0000 + be32_value(s.subrange(4, 8)) as int) as u64
}

/// Two's complement of a 16-bit signed number.
pub open spec fn unsigned16(n: i16) -> u16 {
    if n < 0 {
        (n + 0x1_0000) as u16
    } else {
        n as u16
    }
}

/// Two's complement of a 32-bit signed number.
pub open spec fn unsigned32(n: i32) -> u32 {
    if n < 0 {
        (n + 0x1_0000_0000) as u32
    } else {
        n as u32
    }
}

/// Two's complement of a 64-bit signed number.
pub open spec fn unsigned64(n: i64) -> u64 {
    if n < 0 {
        (n + 0x1_0000_0000_0000_0000) as u64
    } else {
        n as u64
    }
}

/// The signed number that a 16-bit two's complement pattern stands for.
pub open spec fn signed16(n: u16) -> i16 {
    if n >= 0x8000 {
        (n - 0x1_0000) as i16
    } else {
        n as i16
    }
}

/// The signed number that a 32-bit two's complement pattern stands for.
pub open spec fn signed32(n: u32) -> i32 {
    if n >= 0x8000_0000 {
        (n - 0x1_0000_0000) as i32
    } else {
        n as i32
    }
}

/// The signed number that a 64-bit two's complement pattern stands for.
pub open spec fn signed64(n: u64) -> i64 {
    if n >= 0x8000_0000_0000_0000 {
        (n - 0x1_0000_0000_0000_0000) as i64
    } else {
        n as i64
    }
}

/// Calls `byteorder::BigEndian::write_u16` on a buffer of two bytes.
/// Trusted: the buffer then holds `n` with its high byte first.
#[verifier::external_body]
pub(crate) fn u16_to_be(n: u16) -> (out: [u8; 2])
    ensures
        out@ == be16(n),
{
    let mut out: [u8; 2] = [0u8; 2];
    BigEndian::write_u16(&mut out, n);
    out
}

/// Calls `byteorder::BigEndian::write_u32` on a buffer of four bytes.
/// Trusted: the buffer then holds `n` with its highest byte first.
#[verifier::external_body]
pub(crate) fn u32_to_be(n: u32) -> (out: [u8; 4])
    ensures
        out@ == be32(n),
{
    let mut out: [u8; 4] = [0u8; 4];
    BigEndian::write_u32(&mut out, n);
    out
}

/// Calls `byteorder::BigEndian::write_u64` on a buffer of eight bytes.
/// Trusted: the buffer then holds `n` with its highest byte first.
#[verifier::external_body]
pub(crate) fn u64_to_be(n: u64) -> (out: [u8; 8])
    ensures
        out@ == be64(n),
{
    let mut out: [u8; 8] = [0u8; 8];
    BigEndian::write_u64(&mut out, n);
    out
}

/// Calls `byteorder::BigEndian::write_i16` on a buffer of two bytes.
/// Trusted: the buffer then holds the two's complement of `n`, high byte first.
#[verifier::external_body]
pub(crate) fn i16_to_be(n: i16) -> (out: [u8; 2])
    ensures
        out@ == be16(unsigned16(n)),
{
    let mut out: [u8; 2] = [0u8; 2];
    BigEndian::write_i16(&mut out, n);
    out
}

/// Calls `byteorder::BigEndian::write_i32` on a buffer of four bytes.
/// Trusted: the buffer then holds the two's complement of `n`, highest byte first.
#[verifier::external_body]
pub(crate) fn i32_to_be(n: i32) -> (out: [u8; 4])
    ensures
        out@ == be32(unsigned32(n)),
{
    let mut out: [u8; 4] = [0u8; 4];
    BigEndian::write_i32(&mut out, n);
    out
}

/// Calls `byteorder::BigEndian::write_i64` on a buffer of eight bytes.
/// Trusted: the buffer then holds the two's complement of `n`, highest byte first.
#[verifier::external_body]
pub(crate) fn i64_to_be(n: i64) -> (out: [u8; 8])
    ensures
        out@ == be64(unsigned64(n)),
{
    let mut out: [u8; 8] = [0u8; 8];
    BigEndian::write_i64(&mut out, n);
    out
}

/// Calls `byteorder::BigEndian::read_u16`, which panics on fewer than two bytes.
/// Trusted: the result is the first two bytes read as a big-endian number.
#[verifier::external_body]
pub(crate) fn be_to_u16(buf: &[u8]) -> (n: u16)
    requires
        buf@.len() >= 2,
    ensures
        n == be16_value(buf@),
{
    BigEndian::read_u16(buf)
}

/// Calls `byteorder::BigEndian::read_u32`, which panics on fewer than four bytes.
/// Trusted: the result is the first four bytes read as a big-endian number.
#[verifier::external_body]
pub(crate) fn be_to_u32(buf: &[u8]) -> (n: u32)
    requires
        buf@.len() >= 4,
    ensures
        n == be32_value(buf@),
{
    BigEndian::read_u32(buf)
}

/// Calls `byteorder::BigEndian::read_u64`, which panics on fewer than eight bytes.
/// Trusted: the result is the first eight bytes read as a big-endian number.
#[verifier::external_body]
pub(crate) fn be_to_u64(buf: &[u8]) -> (n: u64)
    requires
        buf@.len() >= 8,
    ensures
        n == be64_value(buf@),
{
    BigEndian::read_u64(buf)
}

/// Calls `byteorder::BigEndian::read_i16`, which panics on fewer than two bytes.
/// Trusted: the result is the first two bytes read as a big-endian two's
/// complement number.
#[verifier::external_body]
pub(crate) fn be_to_i16(buf: &[u8]) -> (n: i16)
    requires
        buf@.len() >= 2,
    ensures
        n == signed16(be16_value(buf@)),
{
    BigEndian::read_i16(buf)
}

/// Calls `byteorder::BigEndian::read_i32`, which panics on fewer than four bytes.
/// Trusted: the result is the first four bytes read as a big-endian two's
/// complement number.
#[verifier::external_body]
pub(crate) fn be_to_i32(buf: &[u8]) -> (n: i32)
    requires
        buf@.len() >= 4,
    ensures
        n == signed32(be32_value(buf@)),
{
    BigEndian::read_i32(buf)
}

/// Calls `byteorder::BigEndian::read_i64`, which panics on fewer than eight bytes.
/// Trusted: the result is the first eight bytes read as a big-endian two's
/// complement number.
#[verifier::external_body]
pub(crate) fn be_to_i64(buf: &[u8]) -> (n: i64)
    requires
        buf@.len() >= 8,
    ensures
        n == signed64(be64_value(buf@)),
{
    BigEndian::read_i64(buf)
}

/// Reading a 16-bit number back from its big-endian bytes gives the number.
pub proof fn lemma_be16_round_trip(n: u16)
    ensures
        be16(n).len() == 2,
        be16_value(be16(n)) == n,
{
}

/// Reading a 32-bit number back from its big-endian bytes gives the number.
pub proof fn lemma_be32_round_trip(n: u32)
    ensures
        be32(n).len() == 4,
        be32_value(be32(n)) == n,
{
}

/// Reading a 64-bit number back from its big-endian bytes gives the number.
pub proof fn lemma_be64_round_trip(n: u64)
    ensures
        be64(n).len() == 8,
        be64_value(be64(n)) == n,
{
    let hi = (n / 0x1_0000_0000) as u32;
    let lo = (n % 0x1_0000_0000) as u32;
    lemma_be32_round_trip(hi);
    lemma_be32_round_trip(lo);
    assert(be64(n).subrange(0, 4) =~= be32(hi));
    assert(be64(n).subrange(4, 8) =~= be32(lo));
}

/// Two's complement and its reading are inverse to each other.
pub proof fn lemma_signed_unsigned(a: i16, b: i32, c: i64)
    ensures
        signed16(unsigned16(a)) == a,
        signed32(unsigned32(b)) == b,
        signed64(unsigned64(c)) == c,
{
}

} // verus!
