//! Little-endian fixed-width integers in byte strings.
use vstd::prelude::*;

verus! {

/// The integer that four bytes hold, least significant first.
pub open spec fn le32(s: Seq<u8>) -> int {
    s[0] + 256 * s[1] + 65536 * s[2] + 16777216 * s[3]
}

/// The integer that eight bytes hold, least significant first.
pub open spec fn le64(s: Seq<u8>) -> int {
    le32(s) + 4294967296 * le32(s.subrange(4, 8))
}

/// The four bytes of `d`, least significant first.
pub fn encode_fixed32(d: u32) -> (r: [u8; 4])
    ensures
        le32(r@) == d,
{
    assert((d & 0xff) < 256 && ((d >> 8) & 0xff) < 256 && ((d >> 16) & 0xff) < 256 && ((d >> 24)
        & 0xff) < 256) by (bit_vector);
    let b0 = (d & 0xff) as u8;
    let b1 = ((d >> 8) & 0xff) as u8;
    let b2 = ((d >> 16) & 0xff) as u8;
    let b3 = ((d >> 24) & 0xff) as u8;
    assert(d == (d & 0xff) + 256 * ((d >> 8) & 0xff) + 65536 * ((d >> 16) & 0xff) + 16777216 * ((d
        >> 24) & 0xff)) by (bit_vector);
    [b0, b1, b2, b3]
}

/// The eight bytes of `d`, least significant first.
pub fn encode_fixed64(d: u64) -> (r: [u8; 8])
    ensures
        le64(r@) == d,
{
    assert((d & 0xffff_ffff) < 0x1_0000_0000 && (d >> 32) < 0x1_0000_0000) by (bit_vector);
    let lo = encode_fixed32((d & 0xffff_ffff) as u32);
    let hi = encode_fixed32((d >> 32) as u32);
    assert(d == (d & 0xffff_ffff) + 4294967296 * (d >> 32)) by (bit_vector);
    let r = [lo[0], lo[1], lo[2], lo[3], hi[0], hi[1], hi[2], hi[3]];
    assert(r@.subrange(4, 8) =~= hi@);
    assert(le32(r@) == le32(lo@));
    r
}

/// The integer that the first four bytes of `d` hold, least significant first.
pub fn decode_fixed32(d: &[u8]) -> (r: u32)
    requires
        d@.len() >= 4,
    ensures
        r == le32(d@),
{
    let b0 = d[0] as u32;
    let b1 = d[1] as u32;
    let b2 = d[2] as u32;
    let b3 = d[3] as u32;
    assert(b0 < 256 && b1 < 256 && b2 < 256 && b3 < 256 ==> b0 | (b1 << 8) | (b2 << 16) | (b3 << 24)
        == b0 + 256 * b1 + 65536 * b2 + 16777216 * b3) by (bit_vector);
    b0 | (b1 << 8) | (b2 << 16) | (b3 << 24)
}

/// The integer that the first eight bytes of `d` hold, least significant first.
pub fn decode_fixed64(d: &[u8]) -> (r: u64)
    requires
        d@.len() >= 8,
    ensures
        r == le64(d@),
{
    let lo = decode_fixed32(d) as u64;
    let tail = &d[4..8];
    assert(tail@ =~= d@.subrange(4, 8));
    let hi = decode_fixed32(tail) as u64;
    assert(lo < 0x1_0000_0000 && hi < 0x1_0000_0000 ==> lo | (hi << 32) == lo + 4294967296 * hi)
        by (bit_vector);
    lo | (hi << 32)
}

} // verus!
