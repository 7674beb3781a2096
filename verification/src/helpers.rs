use core::ops::Range;
use vstd::bytes::{spec_u16_from_le_bytes, spec_u32_from_le_bytes};
use vstd::bytes::{u16_from_le_bytes, u32_from_le_bytes};
use vstd::prelude::*;
use vstd::slice::slice_subrange;

verus! {

/// `a + b`, saturating at `usize::MAX`; used for diagnostic offsets whose
/// inputs are not known to stay within the buffer.
pub open spec fn spec_sat_add(a: int, b: int) -> usize {
    if a + b <= usize::MAX {
        (a + b) as usize
    } else {
        usize::MAX
    }
}

/// Adds two byte positions, saturating at `usize::MAX`.
pub fn sat_add(a: usize, b: usize) -> (r: usize)
    ensures
        r == spec_sat_add(a as int, b as int),
{
    match a.checked_add(b) {
        Some(r) => r,
        None => usize::MAX,
    }
}

/// The little-endian `u16` stored at byte position `pos` of `b`.
pub open spec fn spec_le16(b: Seq<u8>, pos: int) -> u16 {
    spec_u16_from_le_bytes(b.subrange(pos, pos + 2))
}

/// The little-endian `u32` stored at byte position `pos` of `b`.
pub open spec fn spec_le32(b: Seq<u8>, pos: int) -> u32 {
    spec_u32_from_le_bytes(b.subrange(pos, pos + 4))
}

/// Reads the little-endian `u16` at byte position `pos`.
pub fn read_le16(bytes: &[u8], pos: usize) -> (r: u16)
    requires
        pos + 2 <= bytes@.len(),
    ensures
        r == spec_le16(bytes@, pos as int),
{
    let len = bytes.len();
    u16_from_le_bytes(slice_subrange(bytes, pos, pos + 2))
}

/// Reads the little-endian `u32` at byte position `pos`.
pub fn read_le32(bytes: &[u8], pos: usize) -> (r: u32)
    requires
        pos + 4 <= bytes@.len(),
    ensures
        r == spec_le32(bytes@, pos as int),
{
    let len = bytes.len();
    u32_from_le_bytes(slice_subrange(bytes, pos, pos + 4))
}

/// The big-endian `u32` stored at byte position `pos` of `b`.
pub open spec fn spec_be32(b: Seq<u8>, pos: int) -> u32 {
    (b[pos] as int * 0x100_0000 + b[pos + 1] as int * 0x1_0000 + b[pos + 2] as int * 0x100 + b[pos
        + 3] as int) as u32
}

/// Reads the big-endian `u32` at byte position `pos`.
pub fn read_be32(bytes: &[u8], pos: usize) -> (r: u32)
    requires
        pos + 4 <= bytes@.len(),
    ensures
        r == spec_be32(bytes@, pos as int),
{
    let len = bytes.len();
    let b0 = bytes[pos] as u32;
    let b1 = bytes[pos + 1] as u32;
    let b2 = bytes[pos + 2] as u32;
    let b3 = bytes[pos + 3] as u32;
    b0 * 0x100_0000 + b1 * 0x1_0000 + b2 * 0x100 + b3
}

/// Returns a subrange of the given `Range<usize>` encompassing `byte_count`
/// bytes and starting at the beginning of `range`.
///
/// Checked addition guards against integer overflow, and the subrange must end
/// within the boundaries of the given range; otherwise `None` is returned.
pub fn byte_subrange(range: &Range<usize>, byte_count: usize) -> (r: Option<Range<usize>>)
    ensures
        match r {
            Some(sub) => {
                &&& range.start + byte_count <= range.end
                &&& sub.start == range.start
                &&& sub.end == range.start + byte_count
            },
            None => range.start + byte_count > range.end,
        },
{
    let subrange_end = match range.start.checked_add(byte_count) {
        Some(e) => e,
        None => {
            return None;
        },
    };
    if subrange_end > range.end {
        return None;
    }
    Some(range.start..subrange_end)
}

} // verus!
