use core::ops::Range;
use vstd::prelude::*;

use crate::error::NtHiveError;
use crate::helpers::{read_le16, read_le32, spec_le16, spec_le32};
use crate::hive::{
    spec_cell_body_len, spec_cell_body_start, spec_cell_err, spec_cell_ok, Hive, NO_OFFSET,
};

verus! {

/// Number of bytes that a single Big Data segment can hold.
/// Every Big Data segment contains that many data bytes except for the last
/// one.
///
/// This is also the threshold that decides whether key value data needs a
/// Big Data structure: up to this size, data fits into a single cell.
pub const BIG_DATA_SEGMENT_SIZE: usize = 16344;

/// Size in bytes of a Big Data header: a two-byte signature, a `u16` segment
/// count, and a `u32` segment-list offset.
pub const BIG_DATA_HEADER_SIZE: usize = 8;

/// How many bytes the next Big Data segment yields when `left` bytes of data
/// are still owed.
pub open spec fn spec_db_take(left: int) -> int {
    if left < BIG_DATA_SEGMENT_SIZE {
        left
    } else {
        BIG_DATA_SEGMENT_SIZE as int
    }
}

/// The data offset of segment `i` of a Big Data segment list whose items
/// begin at the absolute position `items_start`.
pub open spec fn spec_db_seg_off(b: Seq<u8>, items_start: int, i: int) -> u32 {
    spec_le32(b, items_start + 4 * i)
}

/// True when, starting at segment `i` with `left` bytes of data still owed,
/// every needed segment resolves to an allocated cell that holds its share.
pub open spec fn spec_db_segs_ok_from(b: Seq<u8>, items_start: int, i: int, left: int) -> bool
    decreases left,
{
    if left <= 0 {
        true
    } else {
        let off = spec_db_seg_off(b, items_start, i) as int;
        &&& spec_db_seg_off(b, items_start, i) != NO_OFFSET
        &&& spec_cell_ok(b, off)
        &&& spec_db_take(left) <= spec_cell_body_len(b, off)
        &&& spec_db_segs_ok_from(b, items_start, i + 1, left - spec_db_take(left))
    }
}

/// The data bytes collected from the segments, starting at segment `i` with
/// `left` bytes still owed: every segment contributes
/// [`BIG_DATA_SEGMENT_SIZE`] bytes except the last, which contributes the
/// remainder.
pub open spec fn spec_db_bytes_from(b: Seq<u8>, items_start: int, i: int, left: int) -> Seq<u8>
    decreases left,
{
    if left <= 0 {
        Seq::empty()
    } else {
        let off = spec_db_seg_off(b, items_start, i) as int;
        let take = spec_db_take(left);
        b.subrange(spec_cell_body_start(off), spec_cell_body_start(off) + take)
            + spec_db_bytes_from(b, items_start, i + 1, left - take)
    }
}

/// Big Data round trip: concatenating all segments yields exactly the owed
/// number of bytes, for any resolvable segment list and any starting point.
pub proof fn lemma_big_data_round_trip(b: Seq<u8>, items_start: int, i: int, left: int)
    requires
        spec_db_segs_ok_from(b, items_start, i, left),
    ensures
        spec_db_bytes_from(b, items_start, i, left).len() == (if left > 0 {
            left
        } else {
            0
        }),
    decreases left,
{
    if left > 0 {
        lemma_big_data_round_trip(b, items_start, i + 1, left - spec_db_take(left));
        let off = spec_db_seg_off(b, items_start, i) as int;
        let take = spec_db_take(left);
        assert(b.subrange(spec_cell_body_start(off), spec_cell_body_start(off) + take).len()
            == take);
    }
}

/// Iterator over the data byte slices stored in a Big Data structure,
/// returning one slice per segment.
///
/// On-Disk Signature: `db`
#[derive(Clone, Copy, Debug)]
pub struct BigDataSlices<'a> {
    /// The hive the Big Data structure belongs to.
    pub hive: Hive<'a>,
    /// Absolute position of the first segment-list item.
    pub items_start: usize,
    /// Number of segments in the segment list.
    pub seg_count: u16,
    /// Position of the next segment to yield.
    pub seg_index: u16,
    /// Number of data bytes still to yield.
    pub bytes_left: usize,
}

impl<'a> BigDataSlices<'a> {
    /// True when the segment list lies within the buffer and enough segments
    /// remain for the bytes still owed.
    pub open spec fn wf(self) -> bool {
        &&& self.hive.wf()
        &&& self.items_start + self.seg_count * 4 <= self.hive@.len()
        &&& self.seg_index <= self.seg_count
        &&& self.bytes_left <= (self.seg_count - self.seg_index) * BIG_DATA_SEGMENT_SIZE
    }

    /// The data bytes this iterator still yields, when all remaining
    /// segments resolve.
    pub open spec fn spec_remaining(self) -> Seq<u8> {
        spec_db_bytes_from(
            self.hive@,
            self.items_start as int,
            self.seg_index as int,
            self.bytes_left as int,
        )
    }

    /// True when all remaining segments resolve and hold their share.
    pub open spec fn spec_segments_ok(self) -> bool {
        spec_db_segs_ok_from(
            self.hive@,
            self.items_start as int,
            self.seg_index as int,
            self.bytes_left as int,
        )
    }

    /// Verifies the Big Data header in the cell body `header_cell_range`,
    /// resolves its segment list, and builds the segment iterator.
    /// `data_size_field_offset` is only reported in errors.
    pub(crate) fn new(
        hive: Hive<'a>,
        data_size: u32,
        data_size_field_offset: usize,
        header_cell_range: Range<usize>,
    ) -> (r: Result<BigDataSlices<'a>, NtHiveError>)
        requires
            hive.wf(),
            header_cell_range.start <= header_cell_range.end <= hive@.len(),
        ensures
            match r {
                Ok(it) => {
                    &&& spec_db_shell_ok(
                        hive@,
                        header_cell_range.start as int,
                        header_cell_range.end as int,
                        data_size as int,
                    )
                    &&& it.hive == hive
                    &&& it.items_start == spec_cell_body_start(
                        spec_le32(hive@, header_cell_range.start + 4) as int,
                    )
                    &&& it.seg_count == spec_le16(hive@, header_cell_range.start + 2)
                    &&& it.seg_index == 0
                    &&& it.bytes_left == data_size
                    &&& it.wf()
                },
                Err(e) => {
                    &&& !spec_db_shell_ok(
                        hive@,
                        header_cell_range.start as int,
                        header_cell_range.end as int,
                        data_size as int,
                    )
                    &&& spec_db_err(
                        hive@,
                        header_cell_range.start as int,
                        header_cell_range.end as int,
                        data_size as int,
                        data_size_field_offset as int,
                        e,
                    )
                },
            },
    {
        let body_start = header_cell_range.start;
        let body_end = header_cell_range.end;
        if body_end - body_start < BIG_DATA_HEADER_SIZE {
            return Err(
                NtHiveError::InvalidHeaderSize {
                    offset: body_start,
                    expected: BIG_DATA_HEADER_SIZE,
                    actual: body_end - body_start,
                },
            );
        }
        let s0 = hive.bytes[body_start];
        let s1 = hive.bytes[body_start + 1];
        if !(s0 == 0x64 && s1 == 0x62) {
            // "db"
            return Err(
                NtHiveError::InvalidTwoByteSignature {
                    offset: body_start,
                    expected: vec![0x64, 0x62],
                    actual: [s0, s1],
                },
            );
        }
        let seg_count = read_le16(hive.bytes, body_start + 2);

        // Verify that we have enough segments to contain the entire data.
        let max_data_size = (seg_count as u64) * (BIG_DATA_SEGMENT_SIZE as u64);
        if (data_size as u64) > max_data_size {
            return Err(
                NtHiveError::InvalidSizeField {
                    offset: data_size_field_offset,
                    expected: max_data_size as usize,
                    actual: data_size as usize,
                },
            );
        }
        let segment_list_offset = read_le32(hive.bytes, body_start + 4);
        if segment_list_offset == NO_OFFSET {
            return Err(
                NtHiveError::InvalidHeaderSize {
                    offset: crate::helpers::sat_add(
                        segment_list_offset as usize,
                        crate::hive::BASE_BLOCK_SIZE,
                    ),
                    expected: crate::hive::CELL_HEADER_SIZE,
                    actual: 0,
                },
            );
        }
        let list_range = hive.cell_range_from_data_offset(segment_list_offset)?;
        let byte_count = (seg_count as usize) * 4;
        if byte_count > list_range.end - list_range.start {
            return Err(
                NtHiveError::InvalidSizeField {
                    offset: body_start + 2,
                    expected: byte_count,
                    actual: list_range.end - list_range.start,
                },
            );
        }
        Ok(
            BigDataSlices {
                hive,
                items_start: list_range.start,
                seg_count,
                seg_index: 0,
                bytes_left: data_size as usize,
            },
        )
    }

    /// The next data slice, or `None` once all owed bytes were yielded.
    ///
    /// A segment that does not resolve yields an error without ending the
    /// iteration.
    pub fn next(&mut self) -> (r: Option<Result<&'a [u8], NtHiveError>>)
        requires
            old(self).wf(),
        ensures
            final(self).wf(),
            final(self).hive == old(self).hive,
            final(self).items_start == old(self).items_start,
            final(self).seg_count == old(self).seg_count,
            old(self).bytes_left == 0 ==> r is None && *final(self) == *old(self),
            old(self).bytes_left > 0 ==> {
                let take = spec_db_take(old(self).bytes_left as int);
                let off = spec_db_seg_off(
                    old(self).hive@,
                    old(self).items_start as int,
                    old(self).seg_index as int,
                );
                &&& final(self).seg_index == old(self).seg_index + 1
                &&& final(self).bytes_left == old(self).bytes_left - take
                &&& match r {
                    Some(res) => match res {
                        Ok(s) => {
                            &&& off != NO_OFFSET
                            &&& spec_cell_ok(old(self).hive@, off as int)
                            &&& take <= spec_cell_body_len(old(self).hive@, off as int)
                            &&& s@ == old(self).hive@.subrange(
                                spec_cell_body_start(off as int),
                                spec_cell_body_start(off as int) + take,
                            )
                        },
                        Err(e) => {
                            &&& !(off != NO_OFFSET && spec_cell_ok(old(self).hive@, off as int)
                                && take <= spec_cell_body_len(old(self).hive@, off as int))
                            &&& (if off == NO_OFFSET {
                                e == NtHiveError::InvalidHeaderSize {
                                    offset: crate::helpers::spec_sat_add(
                                        off as int,
                                        crate::hive::BASE_BLOCK_SIZE as int,
                                    ),
                                    expected: crate::hive::CELL_HEADER_SIZE,
                                    actual: 0,
                                }
                            } else if !spec_cell_ok(old(self).hive@, off as int) {
                                e == spec_cell_err(old(self).hive@, off as int)
                            } else {
                                e == NtHiveError::InvalidDataSize {
                                    offset: spec_cell_body_start(off as int) as usize,
                                    expected: take as usize,
                                    actual: spec_cell_body_len(old(self).hive@, off as int)
                                        as usize,
                                }
                            })
                        },
                    },
                    None => false,
                }
            },
    {
        let n = self.hive.bytes.len();
        if self.bytes_left == 0 {
            return None;
        }
        proof {
            assert((self.seg_count - self.seg_index) * BIG_DATA_SEGMENT_SIZE > 0);
            assert(self.seg_index < self.seg_count);
            assert(((self.seg_index as int) + 1) * 4 == (self.seg_index as int) * 4 + 4)
                by (nonlinear_arith);
            vstd::arithmetic::mul::lemma_mul_inequality(
                self.seg_index as int + 1,
                self.seg_count as int,
                4,
            );
        }
        let bytes_to_return = if self.bytes_left < BIG_DATA_SEGMENT_SIZE {
            self.bytes_left
        } else {
            BIG_DATA_SEGMENT_SIZE
        };
        let off = read_le32(self.hive.bytes, self.items_start + (self.seg_index as usize) * 4);
        let ghost old_count = self.seg_count as int;
        let ghost old_index = self.seg_index as int;
        self.seg_index = self.seg_index + 1;
        self.bytes_left = self.bytes_left - bytes_to_return;
        proof {
            assert((old_count - old_index) * BIG_DATA_SEGMENT_SIZE - BIG_DATA_SEGMENT_SIZE == (
            old_count - old_index - 1) * BIG_DATA_SEGMENT_SIZE) by (nonlinear_arith);
        }
        if off == NO_OFFSET {
            return Some(
                Err(
                    NtHiveError::InvalidHeaderSize {
                        offset: crate::helpers::sat_add(
                            off as usize,
                            crate::hive::BASE_BLOCK_SIZE,
                        ),
                        expected: crate::hive::CELL_HEADER_SIZE,
                        actual: 0,
                    },
                ),
            );
        }
        let cell_range = match self.hive.cell_range_from_data_offset(off) {
            Ok(rg) => rg,
            Err(e) => {
                return Some(Err(e));
            },
        };
        if bytes_to_return > cell_range.end - cell_range.start {
            return Some(
                Err(
                    NtHiveError::InvalidDataSize {
                        offset: cell_range.start,
                        expected: bytes_to_return,
                        actual: cell_range.end - cell_range.start,
                    },
                ),
            );
        }
        Some(
            Ok(
                vstd::slice::slice_subrange(
                    self.hive.bytes,
                    cell_range.start,
                    cell_range.start + bytes_to_return,
                ),
            ),
        )
    }
}

/// True when the Big Data header in the cell body `[bs, be)` is well-formed
/// for `size` bytes of data and its segment list resolves: the signature is
/// `db`, the declared segments can carry the data, and the segment-list cell
/// holds one offset per segment.
pub open spec fn spec_db_shell_ok(b: Seq<u8>, bs: int, be: int, size: int) -> bool {
    &&& be - bs >= BIG_DATA_HEADER_SIZE
    &&& b[bs] == 0x64 && b[bs + 1] == 0x62
    &&& spec_le16(b, bs + 2) * BIG_DATA_SEGMENT_SIZE >= size
    &&& spec_le32(b, bs + 4) != NO_OFFSET
    &&& spec_cell_ok(b, spec_le32(b, bs + 4) as int)
    &&& spec_le16(b, bs + 2) * 4 <= spec_cell_body_len(b, spec_le32(b, bs + 4) as int)
}

/// The exact error reported when the Big Data header in the cell body
/// `[bs, be)` does not resolve for `size` bytes of data: the checks run in a
/// fixed order and the first mismatch is reported.
/// `data_size_field_offset` names the field carrying `size`.
pub open spec fn spec_db_err(
    b: Seq<u8>,
    bs: int,
    be: int,
    size: int,
    data_size_field_offset: int,
    e: NtHiveError,
) -> bool {
    if be - bs < BIG_DATA_HEADER_SIZE {
        e == NtHiveError::InvalidHeaderSize {
            offset: bs as usize,
            expected: BIG_DATA_HEADER_SIZE,
            actual: (be - bs) as usize,
        }
    } else if !(b[bs] == 0x64 && b[bs + 1] == 0x62) {
        e matches NtHiveError::InvalidTwoByteSignature { offset, expected, actual } && offset == bs
            as usize && expected@ == seq![0x64u8, 0x62u8] && actual == [b[bs], b[bs + 1]]
    } else if spec_le16(b, bs + 2) * BIG_DATA_SEGMENT_SIZE < size {
        e == NtHiveError::InvalidSizeField {
            offset: data_size_field_offset as usize,
            expected: (spec_le16(b, bs + 2) * BIG_DATA_SEGMENT_SIZE) as usize,
            actual: size as usize,
        }
    } else if spec_le32(b, bs + 4) == NO_OFFSET {
        e == NtHiveError::InvalidHeaderSize {
            offset: crate::helpers::spec_sat_add(
                spec_le32(b, bs + 4) as int,
                crate::hive::BASE_BLOCK_SIZE as int,
            ),
            expected: crate::hive::CELL_HEADER_SIZE,
            actual: 0,
        }
    } else if !spec_cell_ok(b, spec_le32(b, bs + 4) as int) {
        e == spec_cell_err(b, spec_le32(b, bs + 4) as int)
    } else {
        e == NtHiveError::InvalidSizeField {
            offset: (bs + 2) as usize,
            expected: (spec_le16(b, bs + 2) * 4) as usize,
            actual: spec_cell_body_len(b, spec_le32(b, bs + 4) as int) as usize,
        }
    }
}

/// The exact error reported for the first segment, at or after position
/// `i` with `left` bytes owed, that does not resolve or cannot hold its
/// share.
pub open spec fn spec_db_seg_err(
    b: Seq<u8>,
    items_start: int,
    i: int,
    left: int,
    e: NtHiveError,
) -> bool
    decreases left,
{
    if left <= 0 {
        false
    } else {
        let off = spec_db_seg_off(b, items_start, i) as int;
        let take = spec_db_take(left);
        if spec_db_seg_off(b, items_start, i) == NO_OFFSET {
            e == NtHiveError::InvalidHeaderSize {
                offset: crate::helpers::spec_sat_add(off, crate::hive::BASE_BLOCK_SIZE as int),
                expected: crate::hive::CELL_HEADER_SIZE,
                actual: 0,
            }
        } else if !spec_cell_ok(b, off) {
            e == spec_cell_err(b, off)
        } else if take > spec_cell_body_len(b, off) {
            e == NtHiveError::InvalidDataSize {
                offset: spec_cell_body_start(off) as usize,
                expected: take as usize,
                actual: spec_cell_body_len(b, off) as usize,
            }
        } else {
            spec_db_seg_err(b, items_start, i + 1, left - take, e)
        }
    }
}

} // verus!
