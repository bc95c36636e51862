//! Little-endian fixed-width integers and their byte images.
use vstd::prelude::*;

verus! {

/// The four bytes of `n`, least significant first.
pub open spec fn le_bytes_u32(n: u32) -> Seq<u8> {
    seq![n as u8, (n >> 8u32) as u8, (n >> 16u32) as u8, (n >> 24u32) as u8]
}

/// The eight bytes of `n`, least significant first.
pub open spec fn le_bytes_u64(n: u64) -> Seq<u8> {
    seq![
        n as u8,
        (n >> 8u64) as u8,
        (n >> 16u64) as u8,
        (n >> 24u64) as u8,
        (n >> 32u64) as u8,
        (n >> 40u64) as u8,
        (n >> 48u64) as u8,
        (n >> 56u64) as u8,
    ]
}

/// The integer whose little-endian image is the four bytes `b`.
pub open spec fn le_value_u32(b: Seq<u8>) -> u32 {
    (b[0] as u32) | ((b[1] as u32) << 8u32) | ((b[2] as u32) << 16u32) | ((b[3] as u32) << 24u32)
}

/// The integer whose little-endian image is the eight bytes `b`.
pub open spec fn le_value_u64(b: Seq<u8>) -> u64 {
    (b[0] as u64) | ((b[1] as u64) << 8u64) | ((b[2] as u64) << 16u64) | ((b[3] as u64)
        << 24u64) | ((b[4] as u64) << 32u64) | ((b[5] as u64) << 40u64) | ((b[6] as u64)
        << 48u64) | ((b[7] as u64) << 56u64)
}

/// Reading back the image of `n` gives `n`.
pub proof fn lemma_le_u32_round_trip(n: u32)
    ensures
        le_value_u32(le_bytes_u32(n)) == n,
{
    let b = le_bytes_u32(n);
    let (b0, b1, b2, b3) = (b[0], b[1], b[2], b[3]);
    assert((b0 as u32) | ((b1 as u32) << 8u32) | ((b2 as u32) << 16u32) | ((b3 as u32) << 24u32)
        == n) by (bit_vector)
        requires
            b0 == n as u8,
            b1 == (n >> 8u32) as u8,
            b2 == (n >> 16u32) as u8,
            b3 == (n >> 24u32) as u8,
    ;
}

/// Reading back the image of `n` gives `n`.
pub proof fn lemma_le_u64_round_trip(n: u64)
    ensures
        le_value_u64(le_bytes_u64(n)) == n,
{
    let b = le_bytes_u64(n);
    let (b0, b1, b2, b3, b4, b5, b6, b7) = (b[0], b[1], b[2], b[3], b[4], b[5], b[6], b[7]);
    assert((b0 as u64) | ((b1 as u64) << 8u64) | ((b2 as u64) << 16u64) | ((b3 as u64) << 24u64)
        | ((b4 as u64) << 32u64) | ((b5 as u64) << 40u64) | ((b6 as u64) << 48u64) | ((b7 as u64)
        << 56u64) == n) by (bit_vector)
        requires
            b0 == n as u8,
            b1 == (n >> 8u64) as u8,
            b2 == (n >> 16u64) as u8,
            b3 == (n >> 24u64) as u8,
            b4 == (n >> 32u64) as u8,
            b5 == (n >> 40u64) as u8,
            b6 == (n >> 48u64) as u8,
            b7 == (n >> 56u64) as u8,
    ;
}

/// Relies on byteorder's `LittleEndian::write_u32`: it copies `n.to_le_bytes()`
/// into the first four bytes of the buffer.
#[verifier::external_body]
pub(crate) fn u32_to_le(n: u32) -> (r: Vec<u8>)
    ensures
        r@ == le_bytes_u32(n),
{
    let mut buf = vec![0u8; 4];
    <byteorder::LittleEndian as byteorder::ByteOrder>::write_u32(&mut buf, n);
    buf
}

/// Relies on byteorder's `LittleEndian::write_u64`: it copies `n.to_le_bytes()`
/// into the first eight bytes of the buffer.
#[verifier::external_body]
pub(crate) fn u64_to_le(n: u64) -> (r: Vec<u8>)
    ensures
        r@ == le_bytes_u64(n),
{
    let mut buf = vec![0u8; 8];
    <byteorder::LittleEndian as byteorder::ByteOrder>::write_u64(&mut buf, n);
    buf
}

/// Relies on byteorder's `LittleEndian::read_u32`: `u32::from_le_bytes` of the
/// first four bytes; it panics on a shorter buffer.
#[verifier::external_body]
pub(crate) fn u32_from_le(b: &[u8]) -> (r: u32)
    requires
        b@.len() >= 4,
    ensures
        r == le_value_u32(b@),
{
    <byteorder::LittleEndian as byteorder::ByteOrder>::read_u32(b)
}

/// Relies on byteorder's `LittleEndian::read_u64`: `u64::from_le_bytes` of the
/// first eight bytes; it panics on a shorter buffer.
#[verifier::external_body]
pub(crate) fn u64_from_le(b: &[u8]) -> (r: u64)
    requires
        b@.len() >= 8,
    ensures
        r == le_value_u64(b@),
{
    <byteorder::LittleEndian as byteorder::ByteOrder>::read_u64(b)
}

} // verus!
