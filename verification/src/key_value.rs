use core::ops::Range;
use vstd::prelude::*;

use crate::big_data::{
    spec_db_err, spec_db_seg_err, spec_db_segs_ok_from, spec_db_shell_ok, BigDataSlices,
    BIG_DATA_SEGMENT_SIZE,
};
use crate::encoding::{
    chars_to_string, spec_latin1_chars, spec_multi_sz, spec_truncate_nul, spec_utf16_decode,
    spec_utf16_lossy, spec_utf16_units, utf16_decode_lossy, utf16_units,
};
use crate::encoding::{lemma_first_nul_locate, spec_multi_sz_from};
use crate::error::NtHiveError;
use crate::helpers::{
    read_be32, read_le16, read_le32, spec_be32, spec_le16, spec_le32,
};
use crate::hive::{
    spec_cell_body_end, spec_cell_body_len, spec_cell_body_start, spec_cell_err, spec_cell_ok,
    Hive, NO_OFFSET,
};
use crate::string::NtHiveNameString;
use vstd::slice::{slice_subrange, slice_to_vec};

verus! {

/// Possible data types of the data belonging to a key value.
#[derive(Clone, Copy, Debug, PartialEq, Eq, Structural)]
pub enum KeyValueDataType {
    RegNone,
    RegSZ,
    RegExpandSZ,
    RegBinary,
    RegDWord,
    RegDWordBigEndian,
    RegLink,
    RegMultiSZ,
    RegResourceList,
    RegFullResourceDescriptor,
    RegResourceRequirementsList,
    RegQWord,
}

impl KeyValueDataType {
    /// The data type encoded by the given on-disk type code, if the code is
    /// known.
    pub open spec fn spec_from_code(code: u32) -> Option<KeyValueDataType> {
        if code == 0 {
            Some(KeyValueDataType::RegNone)
        } else if code == 1 {
            Some(KeyValueDataType::RegSZ)
        } else if code == 2 {
            Some(KeyValueDataType::RegExpandSZ)
        } else if code == 3 {
            Some(KeyValueDataType::RegBinary)
        } else if code == 4 {
            Some(KeyValueDataType::RegDWord)
        } else if code == 5 {
            Some(KeyValueDataType::RegDWordBigEndian)
        } else if code == 6 {
            Some(KeyValueDataType::RegLink)
        } else if code == 7 {
            Some(KeyValueDataType::RegMultiSZ)
        } else if code == 8 {
            Some(KeyValueDataType::RegResourceList)
        } else if code == 9 {
            Some(KeyValueDataType::RegFullResourceDescriptor)
        } else if code == 10 {
            Some(KeyValueDataType::RegResourceRequirementsList)
        } else if code == 11 {
            Some(KeyValueDataType::RegQWord)
        } else {
            None
        }
    }

    /// Decodes an on-disk type code.
    pub fn from_code(code: u32) -> (r: Option<KeyValueDataType>)
        ensures
            r == Self::spec_from_code(code),
    {
        match code {
            0 => Some(KeyValueDataType::RegNone),
            1 => Some(KeyValueDataType::RegSZ),
            2 => Some(KeyValueDataType::RegExpandSZ),
            3 => Some(KeyValueDataType::RegBinary),
            4 => Some(KeyValueDataType::RegDWord),
            5 => Some(KeyValueDataType::RegDWordBigEndian),
            6 => Some(KeyValueDataType::RegLink),
            7 => Some(KeyValueDataType::RegMultiSZ),
            8 => Some(KeyValueDataType::RegResourceList),
            9 => Some(KeyValueDataType::RegFullResourceDescriptor),
            10 => Some(KeyValueDataType::RegResourceRequirementsList),
            11 => Some(KeyValueDataType::RegQWord),
            _ => None,
        }
    }
}

/// Size in bytes of the fixed key-value header; the value name follows it.
pub const KEY_VALUE_HEADER_SIZE: usize = 20;

/// Flag bit: the value name is stored in Latin-1 instead of UTF-16LE.
pub const VALUE_COMP_NAME: u16 = 0x0001;

/// Bit of the data-size field: the data is stored inline in the data-offset
/// field.
pub const DATA_IN_OFFSET: u32 = 0x8000_0000;

/// Position of the name-length field, relative to the header start.
pub const VK_NAME_LENGTH: usize = 2;

/// Position of the data-size field, relative to the header start.
pub const VK_DATA_SIZE: usize = 4;

/// Position of the data-offset field, relative to the header start.
pub const VK_DATA_OFFSET: usize = 8;

/// Position of the data-type field, relative to the header start.
pub const VK_DATA_TYPE: usize = 12;

/// Position of the flags field, relative to the header start.
pub const VK_FLAGS: usize = 16;

/// True when the cell at data offset `off` holds a key-value record.
pub open spec fn spec_vk_ok(b: Seq<u8>, off: int) -> bool {
    &&& off != NO_OFFSET
    &&& spec_cell_ok(b, off)
    &&& spec_cell_body_len(b, off) >= KEY_VALUE_HEADER_SIZE
    &&& b[spec_cell_body_start(off)] == 0x76
    &&& b[spec_cell_body_start(off) + 1] == 0x6b
}

/// A single value that belongs to a key node.
/// It has a name and attached data.
///
/// On-Disk Signature: `vk`
#[derive(Clone, Copy, Debug)]
pub struct KeyValue<'a> {
    /// The hive this value belongs to.
    pub hive: Hive<'a>,
    /// Absolute position of the fixed header.
    pub header_start: usize,
    /// Absolute position of the trailing data (the value name).
    pub data_start: usize,
    /// Absolute position just past the record's cell body.
    pub data_end: usize,
}

/// Zero-copy representation of raw key value data, returned by
/// [`KeyValue::data`].
#[derive(Clone, Copy, Debug)]
pub enum KeyValueData<'a> {
    /// The data fits into a single cell: the contiguous data bytes.
    Small(&'a [u8]),
    /// The data needs more than one cell: an iterator over the data bytes of
    /// each segment.
    Big(BigDataSlices<'a>),
}

impl<'a> KeyValueData<'a> {
    /// Assembles the data into one owned buffer.
    pub fn into_vec(self) -> (r: Result<Vec<u8>, NtHiveError>)
        requires
            self matches KeyValueData::Big(it) ==> it.wf(),
        ensures
            match self {
                KeyValueData::Small(s) => r matches Ok(v) && v@ == s@,
                KeyValueData::Big(it) => match r {
                    Ok(v) => it.spec_segments_ok() && v@ == it.spec_remaining(),
                    Err(e) => !it.spec_segments_ok() && spec_db_seg_err(
                        it.hive@,
                        it.items_start as int,
                        it.seg_index as int,
                        it.bytes_left as int,
                        e,
                    ),
                },
            },
    {
        match self {
            KeyValueData::Small(data) => Ok(slice_to_vec(data)),
            KeyValueData::Big(it) => {
                let mut iter = it;
                let mut acc: Vec<u8> = Vec::new();
                loop
                    invariant
                        self == KeyValueData::Big(it),
                        iter.wf(),
                        iter.hive == it.hive,
                        iter.items_start == it.items_start,
                        iter.seg_count == it.seg_count,
                        it.spec_segments_ok() ==> iter.spec_segments_ok() && it.spec_remaining()
                            == acc@ + iter.spec_remaining(),
                        iter.spec_segments_ok() ==> it.spec_segments_ok(),
                        forall|e: NtHiveError|
                            #![trigger spec_db_seg_err(it.hive@, it.items_start as int, it.seg_index as int, it.bytes_left as int, e)]
                            spec_db_seg_err(
                                iter.hive@,
                                iter.items_start as int,
                                iter.seg_index as int,
                                iter.bytes_left as int,
                                e,
                            ) ==> spec_db_seg_err(
                                it.hive@,
                                it.items_start as int,
                                it.seg_index as int,
                                it.bytes_left as int,
                                e,
                            ),
                    decreases iter.bytes_left,
                {
                    let ghost prev = acc@;
                    let ghost prev_iter = iter;
                    match iter.next() {
                        None => {
                            proof {
                                assert(iter.bytes_left == 0);
                                assert(iter.spec_segments_ok());
                                assert(it.spec_segments_ok());
                                assert(iter.spec_remaining() =~= Seq::<u8>::empty());
                                assert(acc@ + Seq::<u8>::empty() =~= acc@);
                            }
                            return Ok(acc);
                        },
                        Some(res) => match res {
                            Ok(s) => {
                                let mut part = slice_to_vec(s);
                                acc.append(&mut part);
                                proof {
                                    if it.spec_segments_ok() {
                                        assert(prev_iter.spec_remaining() == s@
                                            + iter.spec_remaining());
                                        assert(prev + (s@ + iter.spec_remaining()) =~= acc@
                                            + iter.spec_remaining());
                                    }
                                }
                            },
                            Err(e) => {
                                proof {
                                    if it.spec_segments_ok() {
                                        assert(prev_iter.spec_segments_ok());
                                        assert(false);
                                    }
                                    assert(spec_db_seg_err(
                                        prev_iter.hive@,
                                        prev_iter.items_start as int,
                                        prev_iter.seg_index as int,
                                        prev_iter.bytes_left as int,
                                        e,
                                    ));
                                }
                                return Err(e);
                            },
                        },
                    }
                }
            },
        }
    }
}

impl<'a> KeyValue<'a> {
    /// True when the record lies within the buffer and carries the `vk`
    /// signature; every `KeyValue` handed out satisfies this.
    pub open spec fn wf(self) -> bool {
        &&& self.hive.wf()
        &&& self.header_start + KEY_VALUE_HEADER_SIZE == self.data_start
        &&& self.data_start <= self.data_end <= self.hive@.len()
        &&& self.hive@[self.header_start as int] == 0x76
        &&& self.hive@[self.header_start as int + 1] == 0x6b
    }

    /// The key value denoted by the cell at data offset `off`.
    pub open spec fn spec_at(hive: Hive<'a>, off: int) -> KeyValue<'a> {
        KeyValue {
            hive,
            header_start: spec_cell_body_start(off) as usize,
            data_start: (spec_cell_body_start(off) + KEY_VALUE_HEADER_SIZE) as usize,
            data_end: spec_cell_body_end(hive@, off) as usize,
        }
    }

    /// The declared byte length of the value name.
    pub open spec fn spec_name_len(self) -> u16 {
        spec_le16(self.hive@, self.header_start + VK_NAME_LENGTH)
    }

    /// The raw data-size field, including the inline-data bit.
    pub open spec fn spec_raw_data_size(self) -> u32 {
        spec_le32(self.hive@, self.header_start + VK_DATA_SIZE)
    }

    /// True when the data is stored inline in the data-offset field.
    pub open spec fn spec_inline(self) -> bool {
        self.spec_raw_data_size() & DATA_IN_OFFSET != 0
    }

    /// The effective data size in bytes.
    pub open spec fn spec_data_size(self) -> u32 {
        self.spec_raw_data_size() & 0x7FFF_FFFFu32
    }

    /// The data-offset field.
    pub open spec fn spec_data_offset(self) -> u32 {
        spec_le32(self.hive@, self.header_start + VK_DATA_OFFSET)
    }

    /// The data-type code field.
    pub open spec fn spec_data_type_code(self) -> u32 {
        spec_le32(self.hive@, self.header_start + VK_DATA_TYPE)
    }

    /// The flags field.
    pub open spec fn spec_flags(self) -> u16 {
        spec_le16(self.hive@, self.header_start + VK_FLAGS)
    }

    /// True when the value name is stored in Latin-1.
    pub open spec fn spec_comp_name(self) -> bool {
        self.spec_flags() & VALUE_COMP_NAME != 0
    }

    /// True when the declared value name fits in the record's trailing data.
    pub open spec fn spec_name_ok(self) -> bool {
        self.data_start + self.spec_name_len() <= self.data_end
    }

    /// The raw bytes of the value name.
    pub open spec fn spec_name_bytes(self) -> Seq<u8> {
        self.hive@.subrange(self.data_start as int, self.data_start + self.spec_name_len())
    }

    /// The decoded characters of the value name: `None` when the name does
    /// not fit its record or holds an unpaired UTF-16 surrogate.
    pub open spec fn spec_name_chars(self) -> Option<Seq<char>> {
        if !self.spec_name_ok() {
            None
        } else if self.spec_comp_name() {
            Some(spec_latin1_chars(self.spec_name_bytes()))
        } else {
            spec_utf16_decode(spec_utf16_units(self.spec_name_bytes()))
        }
    }

    /// The full data bytes of this value: `None` when the data does not
    /// resolve (a bad inline size, an unresolvable cell, a short cell, or a
    /// broken Big Data structure).
    pub open spec fn spec_data_bytes(self) -> Option<Seq<u8>> {
        let b = self.hive@;
        let size = self.spec_data_size() as int;
        let doff = self.spec_data_offset() as int;
        if self.spec_inline() {
            if size <= 4 {
                Some(b.subrange(self.header_start + VK_DATA_OFFSET, self.header_start
                    + VK_DATA_OFFSET + size))
            } else {
                None
            }
        } else if self.spec_data_offset() == NO_OFFSET || !spec_cell_ok(b, doff) {
            None
        } else if size <= BIG_DATA_SEGMENT_SIZE {
            if size <= spec_cell_body_len(b, doff) {
                Some(b.subrange(spec_cell_body_start(doff), spec_cell_body_start(doff) + size))
            } else {
                None
            }
        } else {
            let bs = spec_cell_body_start(doff);
            let be = spec_cell_body_end(b, doff);
            if spec_db_shell_ok(b, bs, be, size) && spec_db_segs_ok_from(
                b,
                spec_cell_body_start(spec_le32(b, bs + 4) as int),
                0,
                size,
            ) {
                Some(
                    crate::big_data::spec_db_bytes_from(
                        b,
                        spec_cell_body_start(spec_le32(b, bs + 4) as int),
                        0,
                        size,
                    ),
                )
            } else {
                None
            }
        }
    }

    /// True when the data resolves so that [`KeyValue::data`] returns `Ok`:
    /// inline data fits its four bytes, or the data cell resolves and holds
    /// the declared size, or a Big Data shell resolves.
    pub open spec fn spec_data_shell_ok(self) -> bool {
        let b = self.hive@;
        let size = self.spec_data_size() as int;
        let doff = self.spec_data_offset() as int;
        if self.spec_inline() {
            size <= 4
        } else if self.spec_data_offset() == NO_OFFSET || !spec_cell_ok(b, doff) {
            false
        } else if size <= BIG_DATA_SEGMENT_SIZE {
            size <= spec_cell_body_len(b, doff)
        } else {
            spec_db_shell_ok(b, spec_cell_body_start(doff), spec_cell_body_end(b, doff), size)
        }
    }

    /// The exact error reported when the data does not resolve: the checks
    /// run in a fixed order and the first mismatch is reported.
    pub open spec fn spec_data_err(self, e: NtHiveError) -> bool {
        let b = self.hive@;
        let size = self.spec_data_size() as int;
        let doff = self.spec_data_offset() as int;
        if self.spec_inline() {
            size > 4 && e == NtHiveError::InvalidSizeField {
                offset: (self.header_start + VK_DATA_SIZE) as usize,
                expected: 4,
                actual: size as usize,
            }
        } else if self.spec_data_offset() == NO_OFFSET {
            e == NtHiveError::InvalidHeaderSize {
                offset: crate::helpers::spec_sat_add(doff, crate::hive::BASE_BLOCK_SIZE as int),
                expected: crate::hive::CELL_HEADER_SIZE,
                actual: 0,
            }
        } else if !spec_cell_ok(b, doff) {
            e == spec_cell_err(b, doff)
        } else if size <= BIG_DATA_SEGMENT_SIZE {
            size > spec_cell_body_len(b, doff) && e == NtHiveError::InvalidDataSize {
                offset: spec_cell_body_start(doff) as usize,
                expected: size as usize,
                actual: spec_cell_body_len(b, doff) as usize,
            }
        } else {
            spec_db_err(
                b,
                spec_cell_body_start(doff),
                spec_cell_body_end(b, doff),
                size,
                self.header_start + VK_DATA_SIZE,
                e,
            )
        }
    }

    /// Builds the key-value view over the cell body `cell_range`.
    pub(crate) fn new(hive: Hive<'a>, cell_range: Range<usize>) -> (r: Result<
        KeyValue<'a>,
        NtHiveError,
    >)
        requires
            hive.wf(),
            cell_range.start <= cell_range.end <= hive@.len(),
        ensures
            match r {
                Ok(v) => {
                    &&& v.hive == hive
                    &&& v.header_start == cell_range.start
                    &&& v.data_start == cell_range.start + KEY_VALUE_HEADER_SIZE
                    &&& v.data_end == cell_range.end
                    &&& v.wf()
                },
                Err(_) => !(cell_range.end - cell_range.start >= KEY_VALUE_HEADER_SIZE && hive@[
                    cell_range.start as int] == 0x76 && hive@[cell_range.start as int + 1] == 0x6b),
            },
    {
        if cell_range.end - cell_range.start < KEY_VALUE_HEADER_SIZE {
            return Err(
                NtHiveError::InvalidHeaderSize {
                    offset: cell_range.start,
                    expected: KEY_VALUE_HEADER_SIZE,
                    actual: cell_range.end - cell_range.start,
                },
            );
        }
        let s0 = hive.bytes[cell_range.start];
        let s1 = hive.bytes[cell_range.start + 1];
        if !(s0 == 0x76 && s1 == 0x6b) {
            // "vk"
            return Err(
                NtHiveError::InvalidTwoByteSignature {
                    offset: cell_range.start,
                    expected: vec![0x76, 0x6b],
                    actual: [s0, s1],
                },
            );
        }
        Ok(
            KeyValue {
                hive,
                header_start: cell_range.start,
                data_start: cell_range.start + KEY_VALUE_HEADER_SIZE,
                data_end: cell_range.end,
            },
        )
    }

    /// Returns the name of this value.
    pub fn name(&self) -> (r: Result<NtHiveNameString<'a>, NtHiveError>)
        requires
            self.wf(),
        ensures
            match r {
                Ok(s) => {
                    &&& self.spec_name_ok()
                    &&& s.spec_bytes() == self.spec_name_bytes()
                    &&& (s matches NtHiveNameString::Latin1(_) <==> self.spec_comp_name())
                    &&& s.spec_chars() == self.spec_name_chars()
                },
                Err(e) => {
                    &&& !self.spec_name_ok()
                    &&& e == NtHiveError::InvalidSizeField {
                        offset: (self.header_start + VK_NAME_LENGTH) as usize,
                        expected: self.spec_name_len() as usize,
                        actual: (self.data_end - self.data_start) as usize,
                    }
                },
            },
    {
        let name_len = read_le16(self.hive.bytes, self.header_start + VK_NAME_LENGTH) as usize;
        if name_len > self.data_end - self.data_start {
            return Err(
                NtHiveError::InvalidSizeField {
                    offset: self.header_start + VK_NAME_LENGTH,
                    expected: name_len,
                    actual: self.data_end - self.data_start,
                },
            );
        }
        let name_bytes = slice_subrange(
            self.hive.bytes,
            self.data_start,
            self.data_start + name_len,
        );
        let flags = read_le16(self.hive.bytes, self.header_start + VK_FLAGS);
        if flags & VALUE_COMP_NAME != 0 {
            Ok(NtHiveNameString::Latin1(name_bytes))
        } else {
            Ok(NtHiveNameString::Utf16LE(name_bytes))
        }
    }

    /// Returns the size of the raw data.
    pub fn data_size(&self) -> (r: u32)
        requires
            self.wf(),
        ensures
            r == self.spec_data_size(),
    {
        let raw = read_le32(self.hive.bytes, self.header_start + VK_DATA_SIZE);
        raw & 0x7FFF_FFFF
    }

    /// Returns the data type of this value; an unknown type code is an
    /// error, not a fallback.
    pub fn data_type(&self) -> (r: Result<KeyValueDataType, NtHiveError>)
        requires
            self.wf(),
        ensures
            match r {
                Ok(t) => KeyValueDataType::spec_from_code(self.spec_data_type_code()) == Some(t),
                Err(e) => {
                    &&& KeyValueDataType::spec_from_code(self.spec_data_type_code()) is None
                    &&& e == NtHiveError::UnsupportedKeyValueDataType {
                        offset: (self.header_start + VK_DATA_TYPE) as usize,
                        actual: self.spec_data_type_code(),
                    }
                },
            },
    {
        let code = read_le32(self.hive.bytes, self.header_start + VK_DATA_TYPE);
        match KeyValueDataType::from_code(code) {
            Some(t) => Ok(t),
            None => Err(
                NtHiveError::UnsupportedKeyValueDataType {
                    offset: self.header_start + VK_DATA_TYPE,
                    actual: code,
                },
            ),
        }
    }

    /// Returns the raw data bytes as [`KeyValueData`].
    ///
    /// Inline data is served from the data-offset field itself; data of up
    /// to one segment from its single cell; anything larger through a Big
    /// Data iterator.
    pub fn data(&self) -> (r: Result<KeyValueData<'a>, NtHiveError>)
        requires
            self.wf(),
        ensures
            match r {
                Ok(d) => match d {
                    KeyValueData::Small(s) => {
                        &&& self.spec_data_shell_ok()
                        &&& self.spec_data_bytes() == Some(s@)
                        &&& s@.len() == self.spec_data_size()
                        &&& s@.len() <= BIG_DATA_SEGMENT_SIZE
                        &&& (self.spec_inline() || self.spec_data_size() <= BIG_DATA_SEGMENT_SIZE)
                    },
                    KeyValueData::Big(it) => {
                        &&& self.spec_data_shell_ok()
                        &&& !self.spec_inline()
                        &&& self.spec_data_size() > BIG_DATA_SEGMENT_SIZE
                        &&& it.items_start == spec_cell_body_start(
                            spec_le32(
                                self.hive@,
                                spec_cell_body_start(self.spec_data_offset() as int) + 4,
                            ) as int,
                        )
                        &&& it.seg_index == 0
                        &&& it.wf()
                        &&& it.hive == self.hive
                        &&& it.bytes_left == self.spec_data_size()
                        &&& (it.spec_segments_ok() ==> self.spec_data_bytes() == Some(
                            it.spec_remaining(),
                        ))
                        &&& (!it.spec_segments_ok() ==> self.spec_data_bytes() is None)
                    },
                },
                Err(e) => {
                    &&& self.spec_data_bytes() is None
                    &&& !self.spec_data_shell_ok()
                    &&& self.spec_data_err(e)
                },
            },
    {
        let raw = read_le32(self.hive.bytes, self.header_start + VK_DATA_SIZE);
        let data_in_offset = raw & DATA_IN_OFFSET != 0;
        let data_size = (raw & 0x7FFF_FFFF) as usize;

        if data_in_offset {
            // The entire data is stored in the `data_offset` field; its size
            // must not exceed the four bytes available there.
            if data_size > 4 {
                return Err(
                    NtHiveError::InvalidSizeField {
                        offset: self.header_start + VK_DATA_SIZE,
                        expected: 4,
                        actual: data_size,
                    },
                );
            }
            let s = slice_subrange(
                self.hive.bytes,
                self.header_start + VK_DATA_OFFSET,
                self.header_start + VK_DATA_OFFSET + data_size,
            );
            return Ok(KeyValueData::Small(s));
        }
        let data_offset = read_le32(self.hive.bytes, self.header_start + VK_DATA_OFFSET);
        if data_offset == NO_OFFSET {
            return Err(
                NtHiveError::InvalidHeaderSize {
                    offset: crate::helpers::sat_add(
                        data_offset as usize,
                        crate::hive::BASE_BLOCK_SIZE,
                    ),
                    expected: crate::hive::CELL_HEADER_SIZE,
                    actual: 0,
                },
            );
        }
        let cell_range = self.hive.cell_range_from_data_offset(data_offset)?;
        if data_size <= BIG_DATA_SEGMENT_SIZE {
            // The entire data is stored in the single cell referenced by
            // `data_offset`.
            if cell_range.end - cell_range.start < data_size {
                return Err(
                    NtHiveError::InvalidDataSize {
                        offset: cell_range.start,
                        expected: data_size,
                        actual: cell_range.end - cell_range.start,
                    },
                );
            }
            let s = slice_subrange(self.hive.bytes, cell_range.start, cell_range.start + data_size);
            Ok(KeyValueData::Small(s))
        } else {
            // The data exceeds one cell and is stored in a Big Data
            // structure referencing multiple cells.
            let it = BigDataSlices::new(
                self.hive,
                data_size as u32,
                self.header_start + VK_DATA_SIZE,
                cell_range,
            )?;
            Ok(KeyValueData::Big(it))
        }
    }
}

/// A prefix of a character vector.
fn vec_chars_prefix(cs: &Vec<char>, k: usize) -> (r: Vec<char>)
    requires
        k <= cs@.len(),
    ensures
        r@ == cs@.take(k as int),
{
    let mut r: Vec<char> = Vec::new();
    let mut i: usize = 0;
    while i < k
        invariant
            i <= k <= cs@.len(),
            r@ == cs@.take(k as int).subrange(0, i as int),
        decreases k - i,
    {
        r.push(cs[i]);
        i = i + 1;
        proof {
            assert(r@ =~= cs@.take(k as int).subrange(0, i as int));
        }
    }
    proof {
        assert(cs@.take(k as int).subrange(0, k as int) =~= cs@.take(k as int));
    }
    r
}

/// A middle section of a character vector.
fn vec_chars_section(cs: &Vec<char>, lo: usize, hi: usize) -> (r: Vec<char>)
    requires
        lo <= hi <= cs@.len(),
    ensures
        r@ == cs@.subrange(lo as int, hi as int),
{
    let mut r: Vec<char> = Vec::new();
    let mut i: usize = lo;
    while i < hi
        invariant
            lo <= i <= hi <= cs@.len(),
            r@ == cs@.subrange(lo as int, hi as int).subrange(0, i - lo),
        decreases hi - i,
    {
        r.push(cs[i]);
        i = i + 1;
        proof {
            assert(r@ =~= cs@.subrange(lo as int, hi as int).subrange(0, i - lo));
        }
    }
    proof {
        assert(cs@.subrange(lo as int, hi as int).subrange(0, hi - lo) =~= cs@.subrange(
            lo as int,
            hi as int,
        ));
    }
    r
}

/// The characters before the first NUL, tolerating missing terminators.
fn truncate_at_nul(cs: &Vec<char>) -> (r: Vec<char>)
    ensures
        r@ == spec_truncate_nul(cs@),
{
    let len = cs.len();
    let mut j: usize = 0;
    while j < len
        invariant
            j <= len,
            len == cs@.len(),
            forall|m: int| 0 <= m < j ==> cs@[m] != '\0',
        decreases len - j,
    {
        if cs[j] == '\0' {
            proof {
                lemma_first_nul_locate(cs@, 0, j as int);
            }
            return vec_chars_prefix(cs, j);
        }
        j = j + 1;
    }
    proof {
        lemma_first_nul_locate(cs@, 0, len as int);
        assert(cs@.take(len as int) =~= cs@);
    }
    vec_chars_prefix(cs, len)
}

/// The NUL-terminated strings held in the characters: the list ends at an
/// empty string, and a trailing unterminated remainder is dropped.
fn split_multi(cs: &Vec<char>) -> (r: Vec<String>)
    ensures
        r@.map_values(|s: String| s@) == spec_multi_sz(cs@),
{
    let len = cs.len();
    let mut res: Vec<String> = Vec::new();
    let mut start: usize = 0;
    let mut j: usize = 0;
    while j < len
        invariant
            start <= j <= len,
            len == cs@.len(),
            forall|m: int| start <= m < j ==> cs@[m] != '\0',
            spec_multi_sz(cs@) == res@.map_values(|s: String| s@) + spec_multi_sz_from(
                cs@,
                start as int,
            ),
        decreases len - j,
    {
        if cs[j] == '\0' {
            proof {
                lemma_first_nul_locate(cs@, start as int, j as int);
            }
            if j == start {
                proof {
                    assert(spec_multi_sz_from(cs@, start as int) =~= Seq::<Seq<char>>::empty());
                    assert(res@.map_values(|s: String| s@) + Seq::<Seq<char>>::empty() =~= res@
                        .map_values(|s: String| s@));
                }
                return res;
            }
            let part = vec_chars_section(cs, start, j);
            let s = chars_to_string(&part);
            let ghost prev = res@;
            res.push(s);
            proof {
                assert(spec_multi_sz_from(cs@, start as int) == seq![cs@.subrange(
                    start as int,
                    j as int,
                )] + spec_multi_sz_from(cs@, j + 1));
                assert(res@.map_values(|s: String| s@) =~= prev.map_values(|s: String| s@)
                    + seq![cs@.subrange(start as int, j as int)]);
                assert(prev.map_values(|s: String| s@) + (seq![cs@.subrange(
                    start as int,
                    j as int,
                )] + spec_multi_sz_from(cs@, j + 1)) =~= res@.map_values(|s: String| s@)
                    + spec_multi_sz_from(cs@, j + 1));
            }
            start = j + 1;
        }
        j = j + 1;
    }
    proof {
        lemma_first_nul_locate(cs@, start as int, len as int);
        assert(spec_multi_sz_from(cs@, start as int) =~= Seq::<Seq<char>>::empty());
        assert(res@.map_values(|s: String| s@) + Seq::<Seq<char>>::empty() =~= res@.map_values(
            |s: String| s@,
        ));
    }
    res
}

impl<'a> KeyValue<'a> {
    /// True when this value's data resolves to a single in-place slice, so
    /// that a fixed-size decoder may read it.
    pub open spec fn spec_small_data(self) -> bool {
        &&& self.spec_data_bytes() is Some
        &&& (self.spec_inline() || self.spec_data_size() <= BIG_DATA_SEGMENT_SIZE)
    }

    /// Absolute position of the first segment-list item of this value's Big
    /// Data structure; meaningful in the Big Data case.
    pub open spec fn spec_db_items_start(self) -> int {
        spec_cell_body_start(
            spec_le32(
                self.hive@,
                spec_cell_body_start(self.spec_data_offset() as int) + 4,
            ) as int,
        )
    }

    /// The exact error reported when the data bytes cannot be assembled:
    /// either the data does not resolve, or (for Big Data) the first broken
    /// segment's error.
    pub open spec fn spec_data_assembly_err(self, e: NtHiveError) -> bool {
        if !self.spec_data_shell_ok() {
            self.spec_data_err(e)
        } else {
            spec_db_seg_err(
                self.hive@,
                self.spec_db_items_start(),
                0,
                self.spec_data_size() as int,
                e,
            )
        }
    }

    /// True when this value carries string data (`REG_SZ` or
    /// `REG_EXPAND_SZ`).
    pub open spec fn spec_string_type(self) -> bool {
        ||| KeyValueDataType::spec_from_code(self.spec_data_type_code()) == Some(
            KeyValueDataType::RegSZ,
        )
        ||| KeyValueDataType::spec_from_code(self.spec_data_type_code()) == Some(
            KeyValueDataType::RegExpandSZ,
        )
    }

    /// Checks that this is a `REG_SZ` or `REG_EXPAND_SZ` value and returns
    /// the data as a `String`: the data bytes are decoded as UTF-16LE with
    /// U+FFFD replacement and truncated at the first NUL, tolerating missing
    /// or repeated terminators.
    pub fn string_data(&self) -> (r: Result<String, NtHiveError>)
        requires
            self.wf(),
        ensures
            match r {
                Ok(s) => {
                    &&& self.spec_string_type()
                    &&& self.spec_data_bytes() matches Some(d) && s@ == spec_truncate_nul(
                        spec_utf16_lossy(spec_utf16_units(d)),
                    )
                },
                Err(e) => !(self.spec_string_type() && self.spec_data_bytes() is Some) && ({
                    let code = self.spec_data_type_code();
                    if KeyValueDataType::spec_from_code(code) is None {
                        e == NtHiveError::UnsupportedKeyValueDataType {
                            offset: (self.header_start + VK_DATA_TYPE) as usize,
                            actual: code,
                        }
                    } else if !self.spec_string_type() {
                        e matches NtHiveError::InvalidKeyValueDataType { expected, actual }
                            && expected@ == seq![
                            KeyValueDataType::RegSZ,
                            KeyValueDataType::RegExpandSZ,
                        ] && Some(actual) == KeyValueDataType::spec_from_code(code)
                    } else {
                        self.spec_data_assembly_err(e)
                    }
                }),
            },
    {
        let data_type = self.data_type()?;
        match data_type {
            KeyValueDataType::RegSZ => (),
            KeyValueDataType::RegExpandSZ => (),
            _ => {
                return Err(
                    NtHiveError::InvalidKeyValueDataType {
                        expected: vec![KeyValueDataType::RegSZ, KeyValueDataType::RegExpandSZ],
                        actual: data_type,
                    },
                );
            },
        }
        let data = self.data()?;
        let bytes = data.into_vec()?;
        let units = utf16_units(bytes.as_slice());
        let chars = utf16_decode_lossy(&units);
        let truncated = truncate_at_nul(&chars);
        Ok(chars_to_string(&truncated))
    }

    /// True when this value carries multi-string data (`REG_MULTI_SZ`).
    pub open spec fn spec_multi_string_type(self) -> bool {
        KeyValueDataType::spec_from_code(self.spec_data_type_code()) == Some(
            KeyValueDataType::RegMultiSZ,
        )
    }

    /// Checks that this is a `REG_MULTI_SZ` value and returns the data as a
    /// vector of `String`s: the data bytes are decoded as UTF-16LE with
    /// U+FFFD replacement and split at NUL terminators; the list ends at an
    /// empty string.
    pub fn multi_string_data(&self) -> (r: Result<Vec<String>, NtHiveError>)
        requires
            self.wf(),
        ensures
            match r {
                Ok(v) => {
                    &&& self.spec_multi_string_type()
                    &&& self.spec_data_bytes() matches Some(d) && v@.map_values(|s: String| s@)
                        == spec_multi_sz(spec_utf16_lossy(spec_utf16_units(d)))
                },
                Err(e) => !(self.spec_multi_string_type() && self.spec_data_bytes() is Some)
                    && ({
                    let code = self.spec_data_type_code();
                    if KeyValueDataType::spec_from_code(code) is None {
                        e == NtHiveError::UnsupportedKeyValueDataType {
                            offset: (self.header_start + VK_DATA_TYPE) as usize,
                            actual: code,
                        }
                    } else if !self.spec_multi_string_type() {
                        e matches NtHiveError::InvalidKeyValueDataType { expected, actual }
                            && expected@ == seq![KeyValueDataType::RegMultiSZ] && Some(actual)
                            == KeyValueDataType::spec_from_code(code)
                    } else {
                        self.spec_data_assembly_err(e)
                    }
                }),
            },
    {
        let data_type = self.data_type()?;
        match data_type {
            KeyValueDataType::RegMultiSZ => (),
            _ => {
                return Err(
                    NtHiveError::InvalidKeyValueDataType {
                        expected: vec![KeyValueDataType::RegMultiSZ],
                        actual: data_type,
                    },
                );
            },
        }
        let data = self.data()?;
        let bytes = data.into_vec()?;
        let units = utf16_units(bytes.as_slice());
        let chars = utf16_decode_lossy(&units);
        Ok(split_multi(&chars))
    }

    /// True when this value carries a 32-bit number (`REG_DWORD` or
    /// `REG_DWORD_BIG_ENDIAN`) of exactly four data bytes in a single cell.
    pub open spec fn spec_dword_ok(self) -> bool {
        &&& self.spec_small_data()
        &&& self.spec_data_size() == 4
        &&& (KeyValueDataType::spec_from_code(self.spec_data_type_code()) == Some(
            KeyValueDataType::RegDWord,
        ) || KeyValueDataType::spec_from_code(self.spec_data_type_code()) == Some(
            KeyValueDataType::RegDWordBigEndian,
        ))
    }

    /// Checks that this is a `REG_DWORD` or `REG_DWORD_BIG_ENDIAN` value of
    /// exactly four data bytes and returns the number, read with the byte
    /// order the type prescribes.
    pub fn dword_data(&self) -> (r: Result<u32, NtHiveError>)
        requires
            self.wf(),
        ensures
            match r {
                Ok(v) => {
                    &&& self.spec_dword_ok()
                    &&& self.spec_data_bytes() matches Some(d) && v == (
                    if KeyValueDataType::spec_from_code(self.spec_data_type_code()) == Some(
                        KeyValueDataType::RegDWord,
                    ) {
                        vstd::bytes::spec_u32_from_le_bytes(d)
                    } else {
                        crate::helpers::spec_be32(d, 0)
                    })
                },
                Err(e) => !self.spec_dword_ok() && ({
                    let code = self.spec_data_type_code();
                    if !self.spec_data_shell_ok() {
                        self.spec_data_err(e)
                    } else if self.spec_data_size() != 4 {
                        e == NtHiveError::InvalidDataSize {
                            offset: (self.header_start + VK_DATA_SIZE) as usize,
                            expected: 4,
                            actual: self.spec_data_size() as usize,
                        }
                    } else if KeyValueDataType::spec_from_code(code) is None {
                        e == NtHiveError::UnsupportedKeyValueDataType {
                            offset: (self.header_start + VK_DATA_TYPE) as usize,
                            actual: code,
                        }
                    } else {
                        e matches NtHiveError::InvalidKeyValueDataType { expected, actual }
                            && expected@ == seq![
                            KeyValueDataType::RegDWord,
                            KeyValueDataType::RegDWordBigEndian,
                        ] && Some(actual) == KeyValueDataType::spec_from_code(code)
                    }
                }),
            },
    {
        let data = self.data()?;
        match data {
            KeyValueData::Small(d) => {
                if d.len() != 4 {
                    return Err(
                        NtHiveError::InvalidDataSize {
                            offset: self.header_start + VK_DATA_SIZE,
                            expected: 4,
                            actual: d.len(),
                        },
                    );
                }
                let data_type = self.data_type()?;
                proof {
                    assert(d@.subrange(0, 4) =~= d@);
                }
                match data_type {
                    KeyValueDataType::RegDWord => Ok(
                        vstd::bytes::u32_from_le_bytes(slice_subrange(d, 0, 4)),
                    ),
                    KeyValueDataType::RegDWordBigEndian => Ok(read_be32(d, 0)),
                    _ => Err(
                        NtHiveError::InvalidKeyValueDataType {
                            expected: vec![
                                KeyValueDataType::RegDWord,
                                KeyValueDataType::RegDWordBigEndian,
                            ],
                            actual: data_type,
                        },
                    ),
                }
            },
            KeyValueData::Big(_) => Err(
                NtHiveError::InvalidDataSize {
                    offset: self.header_start + VK_DATA_SIZE,
                    expected: 4,
                    actual: self.data_size() as usize,
                },
            ),
        }
    }

    /// True when this value carries a 64-bit number (`REG_QWORD`) of exactly
    /// eight data bytes in a single cell.
    pub open spec fn spec_qword_ok(self) -> bool {
        &&& self.spec_small_data()
        &&& self.spec_data_size() == 8
        &&& KeyValueDataType::spec_from_code(self.spec_data_type_code()) == Some(
            KeyValueDataType::RegQWord,
        )
    }

    /// Checks that this is a `REG_QWORD` value of exactly eight data bytes
    /// and returns the little-endian number.
    pub fn qword_data(&self) -> (r: Result<u64, NtHiveError>)
        requires
            self.wf(),
        ensures
            match r {
                Ok(v) => {
                    &&& self.spec_qword_ok()
                    &&& self.spec_data_bytes() matches Some(d) && v
                        == vstd::bytes::spec_u64_from_le_bytes(d)
                },
                Err(e) => !self.spec_qword_ok() && ({
                    let code = self.spec_data_type_code();
                    if !self.spec_data_shell_ok() {
                        self.spec_data_err(e)
                    } else if self.spec_data_size() != 8 {
                        e == NtHiveError::InvalidDataSize {
                            offset: (self.header_start + VK_DATA_SIZE) as usize,
                            expected: 8,
                            actual: self.spec_data_size() as usize,
                        }
                    } else if KeyValueDataType::spec_from_code(code) is None {
                        e == NtHiveError::UnsupportedKeyValueDataType {
                            offset: (self.header_start + VK_DATA_TYPE) as usize,
                            actual: code,
                        }
                    } else {
                        e matches NtHiveError::InvalidKeyValueDataType { expected, actual }
                            && expected@ == seq![KeyValueDataType::RegQWord] && Some(actual)
                            == KeyValueDataType::spec_from_code(code)
                    }
                }),
            },
    {
        let data = self.data()?;
        match data {
            KeyValueData::Small(d) => {
                if d.len() != 8 {
                    return Err(
                        NtHiveError::InvalidDataSize {
                            offset: self.header_start + VK_DATA_SIZE,
                            expected: 8,
                            actual: d.len(),
                        },
                    );
                }
                let data_type = self.data_type()?;
                proof {
                    assert(d@.subrange(0, 8) =~= d@);
                }
                match data_type {
                    KeyValueDataType::RegQWord => Ok(
                        vstd::bytes::u64_from_le_bytes(slice_subrange(d, 0, 8)),
                    ),
                    _ => Err(
                        NtHiveError::InvalidKeyValueDataType {
                            expected: vec![KeyValueDataType::RegQWord],
                            actual: data_type,
                        },
                    ),
                }
            },
            KeyValueData::Big(_) => Err(
                NtHiveError::InvalidDataSize {
                    offset: self.header_start + VK_DATA_SIZE,
                    expected: 8,
                    actual: self.data_size() as usize,
                },
            ),
        }
    }
}

} // verus!
