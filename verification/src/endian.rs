//! Fixed-width integers as bytes, in either byte order.
//!
//! The conversions are those of the `byteorder` crate. Each is called through
//! a small function whose contract says what the crate's function computes;
//! these contracts are taken on trust from the crate's source and are the
//! only statements in this library that are not proved.

use byteorder::{BigEndian, ByteOrder, LittleEndian};
use vstd::prelude::*;

verus! {

/// The number that two bytes denote, most significant byte first.
pub open spec fn be16(b: Seq<u8>) -> int
    recommends
        b.len() >= 2,
{
    b[0] as int * 0x100 + b[1] as int
}

/// The number that four bytes denote, most significant byte first.
pub open spec fn be32(b: Seq<u8>) -> int
    recommends
        b.len() >= 4,
{
    b[0] as int * 0x100_0000 + b[1] as int * 0x1_0000 + b[2] as int * 0x100 + b[3] as int
}

/// The number that two bytes denote, least significant byte first.
pub open spec fn le16(b: Seq<u8>) -> int
    recommends
        b.len() >= 2,
{
    b[0] as int + b[1] as int * 0x100
}

/// The number that four bytes denote, least significant byte first.
pub open spec fn le32(b: Seq<u8>) -> int
    recommends
        b.len() >= 4,
{
    b[0] as int + b[1] as int * 0x100 + b[2] as int * 0x1_0000 + b[3] as int * 0x100_0000
}

/// The signed reading of a 16-bit pattern (two's complement).
pub open spec fn signed16(u: int) -> int {
    if u >= 0x8000 {
        u - 0x1_0000
    } else {
        u
    }
}

/// The signed reading of a 32-bit pattern (two's complement).
pub open spec fn signed32(u: int) -> int {
    if u >= 0x8000_0000 {
        u - 0x1_0000_0000
    } else {
        u
    }
}

/// The 16-bit pattern of a signed number (two's complement).
pub open spec fn pattern16(n: int) -> int {
    if n < 0 {
        n + 0x1_0000
    } else {
        n
    }
}

/// The 32-bit pattern of a signed number (two's complement).
pub open spec fn pattern32(n: int) -> int {
    if n < 0 {
        n + 0x1_0000_0000
    } else {
        n
    }
}

/// The two bytes of a 16-bit pattern, least significant first.
pub open spec fn le16_bytes(u: int) -> Seq<u8> {
    seq![(u % 0x100) as u8, (u / 0x100 % 0x100) as u8]
}

/// The four bytes of a 32-bit pattern, least significant first.
pub open spec fn le32_bytes(u: int) -> Seq<u8> {
    seq![
        (u % 0x100) as u8,
        (u / 0x100 % 0x100) as u8,
        (u / 0x1_0000 % 0x100) as u8,
        (u / 0x100_0000 % 0x100) as u8,
    ]
}

/// The four bytes of a 32-bit pattern, most significant first.
pub open spec fn be32_bytes(u: int) -> Seq<u8> {
    seq![
        (u / 0x100_0000 % 0x100) as u8,
        (u / 0x1_0000 % 0x100) as u8,
        (u / 0x100 % 0x100) as u8,
        (u % 0x100) as u8,
    ]
}

/// `byteorder::BigEndian::read_u16`: the first two bytes of `buf` read as a
/// big-endian unsigned number. The crate panics on a shorter buffer.
#[verifier::external_body]
pub(crate) fn read_u16_be(buf: &[u8]) -> (v: u16)
    requires
        buf@.len() >= 2,
    ensures
        v as int == be16(buf@),
{
    BigEndian::read_u16(buf)
}

/// `byteorder::BigEndian::read_u32`: the first four bytes of `buf` read as a
/// big-endian unsigned number. The crate panics on a shorter buffer.
#[verifier::external_body]
pub(crate) fn read_u32_be(buf: &[u8]) -> (v: u32)
    requires
        buf@.len() >= 4,
    ensures
        v as int == be32(buf@),
{
    BigEndian::read_u32(buf)
}

/// `byteorder::BigEndian::read_i32`: the first four bytes of `buf` read as a
/// big-endian number in two's complement. The crate panics on a shorter
/// buffer.
#[verifier::external_body]
pub(crate) fn read_i32_be(buf: &[u8]) -> (v: i32)
    requires
        buf@.len() >= 4,
    ensures
        v as int == signed32(be32(buf@)),
{
    BigEndian::read_i32(buf)
}

/// `byteorder::LittleEndian::read_i32`: the first four bytes of `buf` read as
/// a little-endian number in two's complement. The crate panics on a shorter
/// buffer.
#[verifier::external_body]
pub(crate) fn read_i32_le(buf: &[u8]) -> (v: i32)
    requires
        buf@.len() >= 4,
    ensures
        v as int == signed32(le32(buf@)),
{
    LittleEndian::read_i32(buf)
}

/// `byteorder::LittleEndian::read_i16`: the first two bytes of `buf` read as
/// a little-endian number in two's complement. The crate panics on a shorter
/// buffer.
#[verifier::external_body]
pub(crate) fn read_i16_le(buf: &[u8]) -> (v: i16)
    requires
        buf@.len() >= 2,
    ensures
        v as int == signed16(le16(buf@)),
{
    LittleEndian::read_i16(buf)
}

/// `byteorder::BigEndian::write_i32` into a buffer of four bytes: the bytes
/// of the two's complement pattern of `n`, most significant first.
#[verifier::external_body]
pub(crate) fn write_i32_be(n: i32) -> (out: [u8; 4])
    ensures
        out@ == be32_bytes(pattern32(n as int)),
{
    let mut out = [0u8; 4];
    BigEndian::write_i32(&mut out, n);
    out
}

/// `byteorder::LittleEndian::write_i32` into a buffer of four bytes: the
/// bytes of the two's complement pattern of `n`, least significant first.
#[verifier::external_body]
pub(crate) fn write_i32_le(n: i32) -> (out: [u8; 4])
    ensures
        out@ == le32_bytes(pattern32(n as int)),
{
    let mut out = [0u8; 4];
    LittleEndian::write_i32(&mut out, n);
    out
}

/// `byteorder::LittleEndian::write_i16` into a buffer of two bytes: the bytes
/// of the two's complement pattern of `n`, least significant first.
#[verifier::external_body]
pub(crate) fn write_i16_le(n: i16) -> (out: [u8; 2])
    ensures
        out@ == le16_bytes(pattern16(n as int)),
{
    let mut out = [0u8; 2];
    LittleEndian::write_i16(&mut out, n);
    out
}

/// Reading back the bytes of a 16-bit number gives the number.
pub proof fn lemma_le16_round_trip(n: i16)
    ensures
        le16_bytes(pattern16(n as int)).len() == 2,
        signed16(le16(le16_bytes(pattern16(n as int)))) == n,
{
}

/// Reading back the little-endian bytes of a 32-bit number gives the number.
pub proof fn lemma_le32_round_trip(n: i32)
    ensures
        le32_bytes(pattern32(n as int)).len() == 4,
        signed32(le32(le32_bytes(pattern32(n as int)))) == n,
{
}

/// Reading back the big-endian bytes of a 32-bit number gives the number.
pub proof fn lemma_be32_round_trip(n: i32)
    ensures
        be32_bytes(pattern32(n as int)).len() == 4,
        signed32(be32(be32_bytes(pattern32(n as int)))) == n,
{
}

} // verus!
