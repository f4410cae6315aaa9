//! Big-endian integers on the wire.

use vstd::prelude::*;
use byteorder::{BigEndian, ByteOrder};

verus! {

/// The four bytes that stand for `n`, most significant first.
pub open spec fn u32_to_be(n: u32) -> Seq<u8> {
    seq![
        (n / 0x100_0000) as u8,
        ((n / 0x1_0000) % 0x100) as u8,
        ((n / 0x100) % 0x100) as u8,
        (n % 0x100) as u8,
    ]
}

/// The number that the first four bytes of `bytes` stand for, most significant first.
pub open spec fn u32_from_be(bytes: Seq<u8>) -> u32
    recommends
        bytes.len() >= 4,
{
    (bytes[0] as int * 0x100_0000 + bytes[1] as int * 0x1_0000 + bytes[2] as int * 0x100
        + bytes[3] as int) as u32
}

/// The eight bytes that stand for `n`, most significant first.
#[verifier::opaque]
pub open spec fn u64_to_be(n: u64) -> Seq<u8> {
    u32_to_be((n / 0x1_0000_0000) as u32) + u32_to_be((n % 0x1_0000_0000) as u32)
}

/// The number that the first eight bytes of `bytes` stand for, most significant first.
#[verifier::opaque]
pub open spec fn u64_from_be(bytes: Seq<u8>) -> u64
    recommends
        bytes.len() >= 8,
{
    (u32_from_be(bytes) as int * 0x1_0000_0000 + u32_from_be(bytes.skip(4)) as int) as u64
}

/// Reading back what was written gives the number again.
pub proof fn lemma_u32_round_trip(n: u32)
    ensures
        u32_to_be(n).len() == 4,
        u32_from_be(u32_to_be(n)) == n,
{
}

/// Reading back what was written gives the number again.
pub proof fn lemma_u64_round_trip(n: u64)
    ensures
        u64_to_be(n).len() == 8,
        u64_from_be(u64_to_be(n)) == n,
{
    reveal(u64_to_be);
    reveal(u64_from_be);
    let hi = (n / 0x1_0000_0000) as u32;
    let lo = (n % 0x1_0000_0000) as u32;
    lemma_u32_round_trip(hi);
    lemma_u32_round_trip(lo);
    assert(u32_from_be(u64_to_be(n)) == u32_from_be(u32_to_be(hi)));
    assert(u64_to_be(n).skip(4) =~= u32_to_be(lo));
}

/// What is read from the front of a run of bytes depends on the first eight alone.
pub proof fn lemma_u64_from_prefix(head: Seq<u8>, tail: Seq<u8>)
    requires
        head.len() >= 8,
    ensures
        u64_from_be(head + tail) == u64_from_be(head),
{
    reveal(u64_from_be);
    assert((head + tail).skip(4)[0] == head.skip(4)[0]);
    assert((head + tail).skip(4)[1] == head.skip(4)[1]);
    assert((head + tail).skip(4)[2] == head.skip(4)[2]);
    assert((head + tail).skip(4)[3] == head.skip(4)[3]);
}

/// Reads a big-endian `u32` from the front of `buf`.
///
/// Trusted: calls `byteorder::BigEndian::read_u32`, which panics on fewer than four
/// bytes and otherwise returns `u32::from_be_bytes` of the first four.
#[verifier::external_body]
pub(crate) fn read_u32_be(buf: &[u8]) -> (r: u32)
    requires
        buf@.len() >= 4,
    ensures
        r == u32_from_be(buf@),
{
    BigEndian::read_u32(buf)
}

/// Writes `n` big-endian over the first four bytes of `buf`.
///
/// Trusted: calls `byteorder::BigEndian::write_u32`, which panics on fewer than four
/// bytes and otherwise copies `n.to_be_bytes()` over the first four, leaving the rest.
#[verifier::external_body]
pub(crate) fn write_u32_be(buf: &mut Vec<u8>, n: u32)
    requires
        old(buf)@.len() >= 4,
    ensures
        final(buf)@ == u32_to_be(n) + old(buf)@.subrange(4, old(buf)@.len() as int),
{
    BigEndian::write_u32(buf.as_mut_slice(), n)
}

/// Reads a big-endian `u64` from the front of `buf`.
///
/// Trusted: calls `byteorder::BigEndian::read_u64`, which panics on fewer than eight
/// bytes and otherwise returns `u64::from_be_bytes` of the first eight.
#[verifier::external_body]
pub(crate) fn read_u64_be(buf: &[u8]) -> (r: u64)
    requires
        buf@.len() >= 8,
    ensures
        r == u64_from_be(buf@),
{
    BigEndian::read_u64(buf)
}

/// Writes `n` big-endian over the first eight bytes of `buf`.
///
/// Trusted: calls `byteorder::BigEndian::write_u64`, which panics on fewer than eight
/// bytes and otherwise copies `n.to_be_bytes()` over the first eight, leaving the rest.
#[verifier::external_body]
pub(crate) fn write_u64_be(buf: &mut Vec<u8>, n: u64)
    requires
        old(buf)@.len() >= 8,
    ensures
        final(buf)@ == u64_to_be(n) + old(buf)@.subrange(8, old(buf)@.len() as int),
{
    BigEndian::write_u64(buf.as_mut_slice(), n)
}

/// Appends `n` to `out`, big-endian.
pub fn push_u32(out: &mut Vec<u8>, n: u32)
    ensures
        final(out)@ == old(out)@ + u32_to_be(n),
{
    let mut field: Vec<u8> = vec![0u8; 4];
    write_u32_be(&mut field, n);
    assert(field@ =~= u32_to_be(n));
    out.extend_from_slice(field.as_slice());
}

/// Appends `n` to `out`, big-endian.
pub fn push_u64(out: &mut Vec<u8>, n: u64)
    ensures
        final(out)@ == old(out)@ + u64_to_be(n),
{
    let mut field: Vec<u8> = vec![0u8; 8];
    write_u64_be(&mut field, n);
    proof {
        lemma_u64_round_trip(n);
    }
    assert(field@ =~= u64_to_be(n));
    out.extend_from_slice(field.as_slice());
}

} // verus!
