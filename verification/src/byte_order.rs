//! Fixed-width integers as they stand in the file, least or most significant
//! byte first.

use byteorder::{BigEndian, ByteOrder, LittleEndian};
use vstd::prelude::*;

verus! {

/// The number that the first two bytes of `s` hold, least significant first.
pub open spec fn le_u16(s: Seq<u8>) -> int {
    s[0] + 0x100 * s[1]
}

/// The number that the first two bytes of `s` hold, most significant first.
pub open spec fn be_u16(s: Seq<u8>) -> int {
    0x100 * s[0] + s[1]
}

/// The number that the first four bytes of `s` hold, least significant first.
pub open spec fn le_u32(s: Seq<u8>) -> int {
    s[0] + 0x100 * s[1] + 0x1_0000 * s[2] + 0x100_0000 * s[3]
}

/// The number that the first four bytes of `s` hold, most significant first.
pub open spec fn be_u32(s: Seq<u8>) -> int {
    0x100_0000 * s[0] + 0x1_0000 * s[1] + 0x100 * s[2] + s[3]
}

/// The number that the first eight bytes of `s` hold, least significant first.
pub open spec fn le_u64(s: Seq<u8>) -> int {
    le_u32(s) + 0x1_0000_0000 * le_u32(s.skip(4))
}

/// The signed reading of a 32-bit pattern, in two's complement.
pub open spec fn signed32(u: int) -> int {
    if u >= 0x8000_0000 {
        u - 0x1_0000_0000
    } else {
        u
    }
}

/// The 32-bit pattern of a signed number, in two's complement.
pub open spec fn unsigned32(i: int) -> int {
    if i < 0 {
        i + 0x1_0000_0000
    } else {
        i
    }
}

/// The two bytes of `v`, least significant first.
pub open spec fn le_bytes_u16(v: int) -> Seq<u8> {
    seq![(v % 0x100) as u8, (v / 0x100) as u8]
}

/// The four bytes of `v`, least significant first.
pub open spec fn le_bytes_u32(v: int) -> Seq<u8> {
    seq![
        (v % 0x100) as u8,
        (v / 0x100 % 0x100) as u8,
        (v / 0x1_0000 % 0x100) as u8,
        (v / 0x100_0000 % 0x100) as u8,
    ]
}

/// The eight bytes of `v`, least significant first.
pub open spec fn le_bytes_u64(v: int) -> Seq<u8> {
    le_bytes_u32(v % 0x1_0000_0000) + le_bytes_u32(v / 0x1_0000_0000)
}

/// Four bytes written least significant first are read back as the number
/// they were written from.
pub proof fn lemma_le_u32_round_trip(v: int)
    requires
        0 <= v < 0x1_0000_0000,
    ensures
        le_bytes_u32(v).len() == 4,
        le_u32(le_bytes_u32(v)) == v,
{
    let a = v / 0x100;
    let b = v / 0x1_0000;
    let c = v / 0x100_0000;
    vstd::arithmetic::div_mod::lemma_fundamental_div_mod(v, 0x100);
    vstd::arithmetic::div_mod::lemma_fundamental_div_mod(a, 0x100);
    vstd::arithmetic::div_mod::lemma_fundamental_div_mod(b, 0x100);
    assert(a / 0x100 == b);
    assert(b / 0x100 == c);
    assert(0 <= c < 0x100);
    assert(c % 0x100 == c);
}

/// Eight bytes written least significant first are read back as the number
/// they were written from.
pub proof fn lemma_le_u64_round_trip(v: int)
    requires
        0 <= v < 0x1_0000_0000_0000_0000,
    ensures
        le_bytes_u64(v).len() == 8,
        le_u64(le_bytes_u64(v)) == v,
{
    let lo = v % 0x1_0000_0000;
    let hi = v / 0x1_0000_0000;
    lemma_le_u32_round_trip(lo);
    lemma_le_u32_round_trip(hi);
    let s = le_bytes_u64(v);
    assert(s.skip(4) =~= le_bytes_u32(hi));
    assert(le_u32(s) == le_u32(le_bytes_u32(lo)));
}

/// The signed and the unsigned reading of 32 bits undo each other.
pub proof fn lemma_signed32_round_trip(i: int, u: int)
    requires
        -0x8000_0000 <= i < 0x8000_0000,
        0 <= u < 0x1_0000_0000,
    ensures
        signed32(unsigned32(i)) == i,
        unsigned32(signed32(u)) == u,
        0 <= unsigned32(i) < 0x1_0000_0000,
        -0x8000_0000 <= signed32(u) < 0x8000_0000,
{
}

/// `byteorder::LittleEndian::read_u16`: the first two bytes of `buf` as a
/// number, least significant byte first. It panics on a shorter buffer.
#[verifier::external_body]
pub(crate) fn read_u16_le(buf: &[u8]) -> (v: u16)
    requires
        buf@.len() >= 2,
    ensures
        v == le_u16(buf@),
{
    LittleEndian::read_u16(buf)
}

/// `byteorder::BigEndian::read_u16`: the first two bytes of `buf` as a
/// number, most significant byte first. It panics on a shorter buffer.
#[verifier::external_body]
pub(crate) fn read_u16_be(buf: &[u8]) -> (v: u16)
    requires
        buf@.len() >= 2,
    ensures
        v == be_u16(buf@),
{
    BigEndian::read_u16(buf)
}

/// `byteorder::LittleEndian::read_u32`: the first four bytes of `buf` as a
/// number, least significant byte first. It panics on a shorter buffer.
#[verifier::external_body]
pub(crate) fn read_u32_le(buf: &[u8]) -> (v: u32)
    requires
        buf@.len() >= 4,
    ensures
        v == le_u32(buf@),
{
    LittleEndian::read_u32(buf)
}

/// `byteorder::BigEndian::read_u32`: the first four bytes of `buf` as a
/// number, most significant byte first. It panics on a shorter buffer.
#[verifier::external_body]
pub(crate) fn read_u32_be(buf: &[u8]) -> (v: u32)
    requires
        buf@.len() >= 4,
    ensures
        v == be_u32(buf@),
{
    BigEndian::read_u32(buf)
}

/// `byteorder::LittleEndian::read_i32`: the first four bytes of `buf`, least
/// significant byte first, read as a signed number in two's complement. It
/// panics on a shorter buffer.
#[verifier::external_body]
pub(crate) fn read_i32_le(buf: &[u8]) -> (v: i32)
    requires
        buf@.len() >= 4,
    ensures
        v == signed32(le_u32(buf@)),
{
    LittleEndian::read_i32(buf)
}

/// `byteorder::LittleEndian::read_u64`: the first eight bytes of `buf` as a
/// number, least significant byte first. It panics on a shorter buffer.
#[verifier::external_body]
pub(crate) fn read_u64_le(buf: &[u8]) -> (v: u64)
    requires
        buf@.len() >= 8,
    ensures
        v == le_u64(buf@),
{
    LittleEndian::read_u64(buf)
}

/// `byteorder::LittleEndian::write_u16` into a buffer of two bytes: the two
/// bytes of `n`, least significant first.
#[verifier::external_body]
pub(crate) fn u16_le_bytes(n: u16) -> (bytes: [u8; 2])
    ensures
        bytes@ == le_bytes_u16(n as int),
{
    let mut buf = [0u8; 2];
    LittleEndian::write_u16(&mut buf, n);
    buf
}

/// `byteorder::LittleEndian::write_u32` into a buffer of four bytes: the four
/// bytes of `n`, least significant first.
#[verifier::external_body]
pub(crate) fn u32_le_bytes(n: u32) -> (bytes: [u8; 4])
    ensures
        bytes@ == le_bytes_u32(n as int),
{
    let mut buf = [0u8; 4];
    LittleEndian::write_u32(&mut buf, n);
    buf
}

/// `byteorder::LittleEndian::write_i32` into a buffer of four bytes: the four
/// bytes of the two's complement pattern of `n`, least significant first.
#[verifier::external_body]
pub(crate) fn i32_le_bytes(n: i32) -> (bytes: [u8; 4])
    ensures
        bytes@ == le_bytes_u32(unsigned32(n as int)),
{
    let mut buf = [0u8; 4];
    LittleEndian::write_i32(&mut buf, n);
    buf
}

/// `byteorder::LittleEndian::write_u64` into a buffer of eight bytes: the
/// eight bytes of `n`, least significant first.
#[verifier::external_body]
pub(crate) fn u64_le_bytes(n: u64) -> (bytes: [u8; 8])
    ensures
        bytes@ == le_bytes_u64(n as int),
{
    let mut buf = [0u8; 8];
    LittleEndian::write_u64(&mut buf, n);
    buf
}

/// Appends the bytes of `src` to `dst`.
pub fn append_bytes(dst: &mut Vec<u8>, src: &[u8])
    ensures
        final(dst)@ == old(dst)@ + src@,
{
    let mut i: usize = 0;
    while i < src.len()
        invariant
            i <= src.len(),
            dst@ == old(dst)@ + src@.subrange(0, i as int),
        decreases src.len() - i,
    {
        dst.push(src[i]);
        proof {
            assert(src@.subrange(0, i + 1) =~= src@.subrange(0, i as int).push(src@[i as int]));
            assert(dst@ =~= old(dst)@ + src@.subrange(0, i + 1));
        }
        i += 1;
    }
    proof {
        assert(src@.subrange(0, i as int) =~= src@);
    }
}

} // verus!
