//! Little-endian integer reads (through `byteorder`) and lossy UTF-8
//! decoding of byte ranges.

use vstd::prelude::*;
use byteorder::{ByteOrder, LittleEndian};
use crate::text::spec_utf8_lossy;

verus! {

/// The little-endian value of the two bytes at `off`.
pub open spec fn le16(b: Seq<u8>, off: int) -> nat {
    b[off] as nat + 256 * (b[off + 1] as nat)
}

/// The little-endian value of the four bytes at `off`.
pub open spec fn le32(b: Seq<u8>, off: int) -> nat {
    le16(b, off) + 65536 * le16(b, off + 2)
}

/// The little-endian value of the eight bytes at `off`.
pub open spec fn le64(b: Seq<u8>, off: int) -> nat {
    le32(b, off) + 0x1_0000_0000 * le32(b, off + 4)
}

/// `LittleEndian::read_u16` on the bytes at `off`.
#[verifier::external_body]
pub(crate) fn read_u16_le(b: &[u8], off: usize) -> (r: u16)
    requires
        off + 2 <= b@.len(),
    ensures
        r as nat == le16(b@, off as int),
{
    LittleEndian::read_u16(&b[off..])
}

/// `LittleEndian::read_u32` on the bytes at `off`.
#[verifier::external_body]
pub(crate) fn read_u32_le(b: &[u8], off: usize) -> (r: u32)
    requires
        off + 4 <= b@.len(),
    ensures
        r as nat == le32(b@, off as int),
{
    LittleEndian::read_u32(&b[off..])
}

/// `LittleEndian::read_u64` on the bytes at `off`.
#[verifier::external_body]
pub(crate) fn read_u64_le(b: &[u8], off: usize) -> (r: u64)
    requires
        off + 8 <= b@.len(),
    ensures
        r as nat == le64(b@, off as int),
{
    LittleEndian::read_u64(&b[off..])
}

/// `String::from_utf8_lossy` on the bytes `b[from..to]`.
#[verifier::external_body]
pub(crate) fn utf8_lossy_range(b: &[u8], from: usize, to: usize) -> (r: String)
    requires
        from <= to <= b@.len(),
    ensures
        r@ == spec_utf8_lossy(b@.subrange(from as int, to as int)),
{
    String::from_utf8_lossy(&b[from..to]).into_owned()
}

} // verus!
