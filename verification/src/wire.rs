//! Fixed-width integer encodings used by the wire formats and by
//! GameCube memory (which is big-endian).

use vstd::prelude::*;

verus! {

/// Little-endian value of two bytes.
pub open spec fn le16(b0: u8, b1: u8) -> u16 {
    (b0 + b1 * 256) as u16
}

/// Little-endian value of four bytes.
pub open spec fn le32(b0: u8, b1: u8, b2: u8, b3: u8) -> u32 {
    (b0 + b1 * 256 + b2 * 65536 + b3 * 16777216) as u32
}

/// Big-endian value of two bytes.
pub open spec fn be16(b0: u8, b1: u8) -> u16 {
    le16(b1, b0)
}

/// Big-endian value of four bytes.
pub open spec fn be32(b0: u8, b1: u8, b2: u8, b3: u8) -> u32 {
    le32(b3, b2, b1, b0)
}

/// Little-endian value of eight bytes.
pub open spec fn le64(b: Seq<u8>) -> u64 {
    (le32(b[0], b[1], b[2], b[3]) + le32(b[4], b[5], b[6], b[7]) * 4294967296) as u64
}

/// The little-endian bytes of a `u16`.
pub open spec fn le16_bytes(v: u16) -> Seq<u8> {
    seq![(v % 256) as u8, (v / 256) as u8]
}

/// The little-endian bytes of a `u32`.
pub open spec fn le32_bytes(v: u32) -> Seq<u8> {
    seq![(v % 256) as u8, ((v / 256) % 256) as u8, ((v / 65536) % 256) as u8, (v / 16777216) as u8]
}

/// The big-endian bytes of a `u16`.
pub open spec fn be16_bytes(v: u16) -> Seq<u8> {
    le16_bytes(v).reverse()
}

/// The big-endian bytes of a `u32`.
pub open spec fn be32_bytes(v: u32) -> Seq<u8> {
    le32_bytes(v).reverse()
}

/// Reading back the little-endian bytes of a `u32` gives the value.
pub proof fn lemma_le32_roundtrip(v: u32)
    ensures
        le32(le32_bytes(v)[0], le32_bytes(v)[1], le32_bytes(v)[2], le32_bytes(v)[3]) == v,
{
    let b0 = v % 256;
    let q0 = v / 256;
    let b1 = q0 % 256;
    let q1 = q0 / 256;
    let b2 = q1 % 256;
    let b3 = q1 / 256;
    assert(v / 65536 == q1) by (nonlinear_arith)
        requires
            q0 == v / 256,
            q1 == q0 / 256,
            v >= 0,
    ;
    assert(v / 16777216 == b3) by (nonlinear_arith)
        requires
            q0 == v / 256,
            q1 == q0 / 256,
            b3 == q1 / 256,
            v >= 0,
    ;
    assert(v == b0 + b1 * 256 + b2 * 65536 + b3 * 16777216) by (nonlinear_arith)
        requires
            b0 == v % 256,
            q0 == v / 256,
            b1 == q0 % 256,
            q1 == q0 / 256,
            b2 == q1 % 256,
            b3 == q1 / 256,
    ;
}

/// Encoding the little-endian value of four bytes gives back the bytes.
pub proof fn lemma_le32_bytes_roundtrip(b0: u8, b1: u8, b2: u8, b3: u8)
    ensures
        le32_bytes(le32(b0, b1, b2, b3)) == seq![b0, b1, b2, b3],
{
    let v: int = b0 + b1 * 256 + b2 * 65536 + b3 * 16777216;
    assert(v % 256 == b0 && (v / 256) % 256 == b1 && (v / 65536) % 256 == b2 && v / 16777216 == b3)
        by (nonlinear_arith)
        requires
            v == b0 + b1 * 256 + b2 * 65536 + b3 * 16777216,
            0 <= b0 < 256,
            0 <= b1 < 256,
            0 <= b2 < 256,
            0 <= b3 < 256,
    ;
    assert(le32_bytes(le32(b0, b1, b2, b3)) =~= seq![b0, b1, b2, b3]);
}

/// Reading back the little-endian bytes of a `u16` gives the value.
pub proof fn lemma_le16_roundtrip(v: u16)
    ensures
        le16(le16_bytes(v)[0], le16_bytes(v)[1]) == v,
{
}

/// Encoding the little-endian value of two bytes gives back the bytes.
pub proof fn lemma_le16_bytes_roundtrip(b0: u8, b1: u8)
    ensures
        le16_bytes(le16(b0, b1)) == seq![b0, b1],
{
    assert(le16_bytes(le16(b0, b1)) =~= seq![b0, b1]);
}

/// The little-endian bytes of a `u16`.
pub fn u16_to_le(v: u16) -> (b: [u8; 2])
    ensures
        b@ == le16_bytes(v),
{
    let b = [(v % 256) as u8, (v / 256) as u8];
    assert(b@ =~= le16_bytes(v));
    b
}

/// The little-endian bytes of a `u32`.
pub fn u32_to_le(v: u32) -> (b: [u8; 4])
    ensures
        b@ == le32_bytes(v),
{
    let b = [(v % 256) as u8, ((v / 256) % 256) as u8, ((v / 65536) % 256) as u8, (v / 16777216) as u8];
    assert(b@ =~= le32_bytes(v));
    b
}

/// The value of two little-endian bytes.
pub fn u16_from_le(b0: u8, b1: u8) -> (v: u16)
    ensures
        v == le16(b0, b1),
{
    b0 as u16 + (b1 as u16) * 256
}

/// The value of four little-endian bytes.
pub fn u32_from_le(b0: u8, b1: u8, b2: u8, b3: u8) -> (v: u32)
    ensures
        v == le32(b0, b1, b2, b3),
{
    b0 as u32 + (b1 as u32) * 256 + (b2 as u32) * 65536 + (b3 as u32) * 16777216
}

/// The value of eight little-endian bytes starting at `at`.
pub fn u64_from_le(b: &[u8], at: usize) -> (v: u64)
    requires
        at + 8 <= b@.len(),
    ensures
        v == le64(b@.subrange(at as int, at + 8)),
{
    let lo = u32_from_le(b[at], b[at + 1], b[at + 2], b[at + 3]);
    let hi = u32_from_le(b[at + 4], b[at + 5], b[at + 6], b[at + 7]);
    lo as u64 + (hi as u64) * 4294967296
}

/// The little-endian bytes of a `u64`, most significant last.
pub open spec fn le64_bytes(v: u64) -> Seq<u8> {
    le32_bytes((v % 4294967296) as u32) + le32_bytes((v / 4294967296) as u32)
}

/// The little-endian bytes of a `u64`.
pub fn u64_to_le(v: u64) -> (b: [u8; 8])
    ensures
        b@ == le64_bytes(v),
{
    let lo = u32_to_le((v % 4294967296) as u32);
    let hi = u32_to_le((v / 4294967296) as u32);
    let b = [lo[0], lo[1], lo[2], lo[3], hi[0], hi[1], hi[2], hi[3]];
    assert(b@ =~= le64_bytes(v));
    b
}

/// A signed byte survives the round trip through its unsigned bit pattern.
pub proof fn lemma_i8_u8_roundtrip(x: i8)
    ensures
        (x as u8) as i8 == x,
{
    assert((x as u8) as i8 == x) by (bit_vector);
}


/// Reading back the little-endian bytes of a `u64` gives the value.
pub proof fn lemma_le64_roundtrip(v: u64)
    ensures
        le64(le64_bytes(v)) == v,
{
    let lo = (v % 4294967296) as u32;
    let hi = (v / 4294967296) as u32;
    lemma_le32_roundtrip(lo);
    lemma_le32_roundtrip(hi);
    let b = le64_bytes(v);
    assert(b.subrange(0, 4) == le32_bytes(lo));
    assert(b[0] == le32_bytes(lo)[0] && b[1] == le32_bytes(lo)[1] && b[2] == le32_bytes(lo)[2] && b[3] == le32_bytes(lo)[3]);
    assert(b[4] == le32_bytes(hi)[0] && b[5] == le32_bytes(hi)[1] && b[6] == le32_bytes(hi)[2] && b[7] == le32_bytes(hi)[3]);
    assert(v == lo + hi * 4294967296) by (nonlinear_arith)
        requires
            lo == v % 4294967296,
            hi == v / 4294967296,
    ;
}

} // verus!
