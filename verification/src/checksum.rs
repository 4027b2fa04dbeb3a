//! The CRC-32 checksum used by the input packets and by the desync hashes.

use vstd::prelude::*;

verus! {

/// The IEEE 802.3 polynomial, bit-reflected.
pub const CRC32_POLY: u32 = 0xEDB88320;

/// One bit step of the reflected CRC-32 register: shift right, and fold
/// the polynomial in when a one bit falls out.
pub open spec fn crc_bit(c: u32) -> u32 {
    if (c & 1) == 1 {
        (c >> 1) ^ CRC32_POLY
    } else {
        c >> 1
    }
}

/// The register after `n` bit steps.
pub open spec fn crc_bits(c: u32, n: nat) -> u32
    decreases n,
{
    if n == 0 {
        c
    } else {
        crc_bits(crc_bit(c), (n - 1) as nat)
    }
}

/// The register after taking in the bytes of `data`, first to last.
pub open spec fn crc_register(init: u32, data: Seq<u8>) -> u32
    decreases data.len(),
{
    if data.len() == 0 {
        init
    } else {
        crc_bits(crc_register(init, data.drop_last()) ^ (data.last() as u32), 8)
    }
}

/// The CRC-32 of a byte sequence: the register starts with every bit set,
/// and the result is its complement.
pub open spec fn crc32_of(data: Seq<u8>) -> u32 {
    !crc_register(0xFFFF_FFFF, data)
}

/// Calls `crc32fast::hash`, which computes the standard CRC-32 (reflected
/// IEEE polynomial, initial value and final complement all ones), whatever
/// the length of the slice, the empty one included.
#[verifier::external_body]
pub(crate) fn crc32(data: &[u8]) -> (c: u32)
    ensures
        c == crc32_of(data@),
{
    crc32fast::hash(data)
}

} // verus!
