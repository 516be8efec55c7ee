//! Little-endian integers on the wire.
//!
//! The spec functions say what the bytes of an integer are; the executable
//! functions at the end read and write them with the `byteorder` crate.

use vstd::prelude::*;
use byteorder::{LittleEndian, ReadBytesExt, WriteBytesExt};

verus! {

/// The 16-bit integer whose little-endian encoding starts `b`.
pub open spec fn u16_from_le(b: Seq<u8>) -> u16 {
    (b[0] as u16) | ((b[1] as u16) << 8)
}

/// The two bytes of `v`, least significant first.
pub open spec fn u16_to_le(v: u16) -> Seq<u8> {
    seq![(v & 0xff) as u8, ((v >> 8) & 0xff) as u8]
}

/// The 32-bit integer whose little-endian encoding starts `b`.
pub open spec fn u32_from_le(b: Seq<u8>) -> u32 {
    (b[0] as u32) | ((b[1] as u32) << 8) | ((b[2] as u32) << 16) | ((b[3] as u32) << 24)
}

/// The four bytes of `v`, least significant first.
pub open spec fn u32_to_le(v: u32) -> Seq<u8> {
    seq![
        (v & 0xff) as u8,
        ((v >> 8) & 0xff) as u8,
        ((v >> 16) & 0xff) as u8,
        ((v >> 24) & 0xff) as u8,
    ]
}

/// Reading back the bytes of a 16-bit integer gives the integer, whatever follows them.
pub proof fn lemma_u16_le_round_trip(v: u16, rest: Seq<u8>)
    ensures
        u16_to_le(v).len() == 2,
        u16_from_le(u16_to_le(v) + rest) == v,
{
    let b = u16_to_le(v) + rest;
    assert(b[0] == (v & 0xff) as u8);
    assert(b[1] == ((v >> 8) & 0xff) as u8);
    assert((((v & 0xff) as u8) as u16) | ((((v >> 8) & 0xff) as u8) as u16) << 8 == v) by (bit_vector);
}

/// Writing out the integer read from two bytes gives those bytes.
pub proof fn lemma_u16_le_bytes_kept(b: Seq<u8>)
    requires
        b.len() >= 2,
    ensures
        u16_to_le(u16_from_le(b)) == b.take(2),
{
    let b0 = b[0];
    let b1 = b[1];
    let v: u16 = (b0 as u16) | ((b1 as u16) << 8);
    assert((v & 0xff) as u8 == b0 && ((v >> 8) & 0xff) as u8 == b1) by (bit_vector)
        requires
            v == (b0 as u16) | ((b1 as u16) << 8),
    ;
    assert(u16_to_le(v) =~= b.take(2));
}

/// Reading back the bytes of a 32-bit integer gives the integer, whatever follows them.
pub proof fn lemma_u32_le_round_trip(v: u32, rest: Seq<u8>)
    ensures
        u32_to_le(v).len() == 4,
        u32_from_le(u32_to_le(v) + rest) == v,
{
    let b = u32_to_le(v) + rest;
    assert(b[0] == (v & 0xff) as u8);
    assert(b[1] == ((v >> 8) & 0xff) as u8);
    assert(b[2] == ((v >> 16) & 0xff) as u8);
    assert(b[3] == ((v >> 24) & 0xff) as u8);
    assert((((v & 0xff) as u8) as u32) | ((((v >> 8) & 0xff) as u8) as u32) << 8 | ((((v >> 16)
        & 0xff) as u8) as u32) << 16 | ((((v >> 24) & 0xff) as u8) as u32) << 24 == v)
        by (bit_vector);
}

/// Writing out the integer read from four bytes gives those bytes.
pub proof fn lemma_u32_le_bytes_kept(b: Seq<u8>)
    requires
        b.len() >= 4,
    ensures
        u32_to_le(u32_from_le(b)) == b.take(4),
{
    let b0 = b[0];
    let b1 = b[1];
    let b2 = b[2];
    let b3 = b[3];
    let v: u32 = (b0 as u32) | ((b1 as u32) << 8) | ((b2 as u32) << 16) | ((b3 as u32) << 24);
    assert((v & 0xff) as u8 == b0 && ((v >> 8) & 0xff) as u8 == b1 && ((v >> 16) & 0xff) as u8
        == b2 && ((v >> 24) & 0xff) as u8 == b3) by (bit_vector)
        requires
            v == (b0 as u32) | ((b1 as u32) << 8) | ((b2 as u32) << 16) | ((b3 as u32) << 24),
    ;
    assert(u32_to_le(v) =~= b.take(4));
}

/// Calls `byteorder::ReadBytesExt::read_u8` on the slice. Trusted: the
/// result is the first byte, and there is none exactly when the slice is empty.
#[verifier::external_body]
pub(crate) fn take_u8(src: &[u8]) -> (r: Option<u8>)
    ensures
        src@.len() < 1 ==> r is None,
        src@.len() >= 1 ==> r == Some(src@[0]),
{
    let mut rest = src;
    rest.read_u8().ok()
}

/// Calls `byteorder::ReadBytesExt::read_u16` with `LittleEndian` on the
/// slice. Trusted: the result is the integer that the first two bytes encode,
/// and there is none exactly when fewer than two bytes are there.
#[verifier::external_body]
pub(crate) fn take_u16_le(src: &[u8]) -> (r: Option<u16>)
    ensures
        src@.len() < 2 ==> r is None,
        src@.len() >= 2 ==> r == Some(u16_from_le(src@)),
{
    let mut rest = src;
    rest.read_u16::<LittleEndian>().ok()
}

/// Calls `byteorder::ReadBytesExt::read_u32` with `LittleEndian` on the
/// slice. Trusted: the result is the integer that the first four bytes encode,
/// and there is none exactly when fewer than four bytes are there.
#[verifier::external_body]
pub(crate) fn take_u32_le(src: &[u8]) -> (r: Option<u32>)
    ensures
        src@.len() < 4 ==> r is None,
        src@.len() >= 4 ==> r == Some(u32_from_le(src@)),
{
    let mut rest = src;
    rest.read_u32::<LittleEndian>().ok()
}

/// Calls `byteorder::WriteBytesExt::write_u8` on the vector. Trusted: the
/// byte is appended; writing to a vector does not fail.
#[verifier::external_body]
pub(crate) fn put_u8(out: &mut Vec<u8>, v: u8)
    ensures
        final(out)@ == old(out)@.push(v),
{
    let _ = out.write_u8(v);
}

/// Calls `byteorder::WriteBytesExt::write_u16` with `LittleEndian` on the
/// vector. Trusted: the two bytes of `v` are appended, least significant first.
#[verifier::external_body]
pub(crate) fn put_u16_le(out: &mut Vec<u8>, v: u16)
    ensures
        final(out)@ == old(out)@ + u16_to_le(v),
{
    let _ = out.write_u16::<LittleEndian>(v);
}

/// Calls `byteorder::WriteBytesExt::write_u32` with `LittleEndian` on the
/// vector. Trusted: the four bytes of `v` are appended, least significant first.
#[verifier::external_body]
pub(crate) fn put_u32_le(out: &mut Vec<u8>, v: u32)
    ensures
        final(out)@ == old(out)@ + u32_to_le(v),
{
    let _ = out.write_u32::<LittleEndian>(v);
}

/// Appends the bytes of `src` to `out`.
pub fn put_bytes(out: &mut Vec<u8>, src: &[u8])
    ensures
        final(out)@ == old(out)@ + src@,
{
    let mut i: usize = 0;
    while i < src.len()
        invariant
            i <= src@.len(),
            out@ == old(out)@ + src@.take(i as int),
        decreases src@.len() - i,
    {
        out.push(src[i]);
        i = i + 1;
        assert(out@ =~= old(out)@ + src@.take(i as int));
    }
    assert(src@.take(i as int) =~= src@);
}

} // verus!
