use core::ops::Range;
use vstd::prelude::*;

use crate::error::NtHiveError;
use crate::helpers::{byte_subrange, read_le32, spec_le32};

verus! {

/// Size in bytes of the hive base block that precedes the cell area.
pub const BASE_BLOCK_SIZE: usize = 4096;

/// Size in bytes of the size field that starts every cell.
pub const CELL_HEADER_SIZE: usize = 4;

/// Byte position of the primary sequence number in the base block.
pub const BASE_PRIMARY_SEQUENCE: usize = 4;

/// Byte position of the secondary sequence number in the base block.
pub const BASE_SECONDARY_SEQUENCE: usize = 8;

/// Byte position of the major version in the base block.
pub const BASE_MAJOR_VERSION: usize = 20;

/// Byte position of the minor version in the base block.
pub const BASE_MINOR_VERSION: usize = 24;

/// Byte position of the file type in the base block.
pub const BASE_FILE_TYPE: usize = 28;

/// Byte position of the file format in the base block.
pub const BASE_FILE_FORMAT: usize = 32;

/// Byte position of the root cell offset in the base block.
pub const BASE_ROOT_CELL_OFFSET: usize = 36;

/// Byte position of the data size in the base block.
pub const BASE_DATA_SIZE: usize = 40;

/// Byte position of the clustering factor in the base block.
pub const BASE_CLUSTERING_FACTOR: usize = 44;

/// Byte position of the checksum in the base block.
pub const BASE_CHECKSUM: usize = 508;

/// Data offset value that means "no reference".
pub const NO_OFFSET: u32 = 0xFFFF_FFFF;

/// Known hive minor versions.
///
/// [`HiveMinorVersion::from_minor`] tells whether the value returned by
/// [`Hive::minor_version`] is a known version.
#[derive(Clone, Copy, Debug, PartialEq, Eq, Structural)]
pub enum HiveMinorVersion {
    WindowsNT3_1Beta,
    WindowsNT3_1,
    WindowsNT3_5,
    WindowsNT4,
    WindowsXPBeta,
    WindowsXP,
    WindowsVista,
}

impl HiveMinorVersion {
    /// The known version a minor version number denotes, if any.
    pub open spec fn spec_from_minor(n: u32) -> Option<HiveMinorVersion> {
        if n == 0 {
            Some(HiveMinorVersion::WindowsNT3_1Beta)
        } else if n == 1 {
            Some(HiveMinorVersion::WindowsNT3_1)
        } else if n == 2 {
            Some(HiveMinorVersion::WindowsNT3_5)
        } else if n == 3 {
            Some(HiveMinorVersion::WindowsNT4)
        } else if n == 4 {
            Some(HiveMinorVersion::WindowsXPBeta)
        } else if n == 5 {
            Some(HiveMinorVersion::WindowsXP)
        } else if n == 6 {
            Some(HiveMinorVersion::WindowsVista)
        } else {
            None
        }
    }

    /// Decodes a minor version number.
    pub fn from_minor(n: u32) -> (r: Option<HiveMinorVersion>)
        ensures
            r == Self::spec_from_minor(n),
    {
        match n {
            0 => Some(HiveMinorVersion::WindowsNT3_1Beta),
            1 => Some(HiveMinorVersion::WindowsNT3_1),
            2 => Some(HiveMinorVersion::WindowsNT3_5),
            3 => Some(HiveMinorVersion::WindowsNT4),
            4 => Some(HiveMinorVersion::WindowsXPBeta),
            5 => Some(HiveMinorVersion::WindowsXP),
            6 => Some(HiveMinorVersion::WindowsVista),
            _ => None,
        }
    }
}

/// True when `b` is large enough to contain a base block.
pub open spec fn spec_base_block_present(b: Seq<u8>) -> bool {
    b.len() >= BASE_BLOCK_SIZE
}

/// True when the base block carries the four-byte signature `regf`.
pub open spec fn spec_signature_ok(b: Seq<u8>) -> bool {
    b.subrange(0, 4) == seq![0x72u8, 0x65u8, 0x67u8, 0x66u8]
}

/// True when the primary sequence number equals the secondary one.
pub open spec fn spec_sequence_numbers_ok(b: Seq<u8>) -> bool {
    spec_le32(b, BASE_PRIMARY_SEQUENCE as int) == spec_le32(b, BASE_SECONDARY_SEQUENCE as int)
}

/// True when the version is one this crate supports: major 1, minor at least 3
/// (Windows NT 4 or later).
pub open spec fn spec_version_ok(b: Seq<u8>) -> bool {
    spec_le32(b, BASE_MAJOR_VERSION as int) == 1 && spec_le32(b, BASE_MINOR_VERSION as int) >= 3
}

/// True when the file type marks a primary hive file.
pub open spec fn spec_file_type_ok(b: Seq<u8>) -> bool {
    spec_le32(b, BASE_FILE_TYPE as int) == 0
}

/// True when the file format marks a memory representation.
pub open spec fn spec_file_format_ok(b: Seq<u8>) -> bool {
    spec_le32(b, BASE_FILE_FORMAT as int) == 1
}

/// True when the declared data size is 4096-aligned and does not exceed the
/// cell area.
pub open spec fn spec_data_size_ok(b: Seq<u8>) -> bool {
    &&& spec_le32(b, BASE_DATA_SIZE as int) as int % 4096 == 0
    &&& spec_le32(b, BASE_DATA_SIZE as int) + BASE_BLOCK_SIZE <= b.len()
}

/// True when the clustering factor is the single supported value 1.
pub open spec fn spec_clustering_factor_ok(b: Seq<u8>) -> bool {
    spec_le32(b, BASE_CLUSTERING_FACTOR as int) == 1
}

/// XOR of the first `n` little-endian 32-bit words of `b`.
pub open spec fn spec_xor_words(b: Seq<u8>, n: int) -> u32
    decreases n,
{
    if n <= 0 {
        0u32
    } else {
        spec_xor_words(b, n - 1) ^ spec_le32(b, (n - 1) * 4)
    }
}

/// The XOR-32 checksum of the base block: the XOR of every 32-bit word before
/// the checksum field, normalized so that 0 becomes 1 and `0xFFFFFFFF` becomes
/// `0xFFFFFFFE`.
pub open spec fn spec_checksum(b: Seq<u8>) -> u32 {
    let x = spec_xor_words(b, BASE_CHECKSUM as int / 4);
    if x == 0 {
        1u32
    } else if x == 0xFFFF_FFFFu32 {
        0xFFFF_FFFEu32
    } else {
        x
    }
}

/// True when the stored checksum equals the computed one. Writers store the
/// normalized value, but reads are lenient and also accept the raw XOR
/// value.
pub open spec fn spec_checksum_ok(b: Seq<u8>) -> bool {
    ||| spec_le32(b, BASE_CHECKSUM as int) == spec_checksum(b)
    ||| spec_le32(b, BASE_CHECKSUM as int) == spec_xor_words(b, BASE_CHECKSUM as int / 4)
}

/// True when all base-block validations pass.
pub open spec fn spec_base_block_valid(b: Seq<u8>) -> bool {
    &&& spec_signature_ok(b)
    &&& spec_sequence_numbers_ok(b)
    &&& spec_version_ok(b)
    &&& spec_file_type_ok(b)
    &&& spec_file_format_ok(b)
    &&& spec_data_size_ok(b)
    &&& spec_clustering_factor_ok(b)
    &&& spec_checksum_ok(b)
}

/// The error reported for a base block that fails validation: the checks run
/// in a fixed order and the first mismatch is reported.
pub open spec fn spec_base_block_err(b: Seq<u8>) -> NtHiveError {
    if !spec_signature_ok(b) {
        NtHiveError::InvalidFourByteSignature {
            offset: 0,
            expected: [0x72u8, 0x65u8, 0x67u8, 0x66u8],
            actual: [b[0], b[1], b[2], b[3]],
        }
    } else if !spec_sequence_numbers_ok(b) {
        NtHiveError::SequenceNumberMismatch {
            primary: spec_le32(b, BASE_PRIMARY_SEQUENCE as int),
            secondary: spec_le32(b, BASE_SECONDARY_SEQUENCE as int),
        }
    } else if !spec_version_ok(b) {
        NtHiveError::UnsupportedVersion {
            major: spec_le32(b, BASE_MAJOR_VERSION as int),
            minor: spec_le32(b, BASE_MINOR_VERSION as int),
        }
    } else if !spec_file_type_ok(b) {
        NtHiveError::UnsupportedFileType { expected: 0, actual: spec_le32(b, BASE_FILE_TYPE as int) }
    } else if !spec_file_format_ok(b) {
        NtHiveError::UnsupportedFileFormat {
            expected: 1,
            actual: spec_le32(b, BASE_FILE_FORMAT as int),
        }
    } else if spec_le32(b, BASE_DATA_SIZE as int) as int % 4096 != 0 {
        NtHiveError::InvalidSizeFieldAlignment {
            offset: BASE_DATA_SIZE,
            size: spec_le32(b, BASE_DATA_SIZE as int) as usize,
            expected_alignment: 4096,
        }
    } else if spec_le32(b, BASE_DATA_SIZE as int) + BASE_BLOCK_SIZE > b.len() {
        NtHiveError::InvalidSizeField {
            offset: BASE_DATA_SIZE,
            expected: spec_le32(b, BASE_DATA_SIZE as int) as usize,
            actual: (b.len() - BASE_BLOCK_SIZE) as usize,
        }
    } else if !spec_clustering_factor_ok(b) {
        NtHiveError::UnsupportedClusteringFactor {
            expected: 1,
            actual: spec_le32(b, BASE_CLUSTERING_FACTOR as int),
        }
    } else {
        NtHiveError::InvalidChecksum {
            expected: spec_le32(b, BASE_CHECKSUM as int),
            actual: spec_checksum(b),
        }
    }
}

/// The raw little-endian value of the size field of the cell at data offset
/// `off`.
pub open spec fn spec_cell_raw_size(b: Seq<u8>, off: int) -> u32 {
    spec_le32(b, off + BASE_BLOCK_SIZE)
}

/// The absolute size of an allocated cell: the two's-complement magnitude of
/// its negative size field.
pub open spec fn spec_cell_size(b: Seq<u8>, off: int) -> int {
    let raw = spec_cell_raw_size(b, off);
    if raw == 0 {
        0
    } else {
        0x1_0000_0000 - raw
    }
}

/// True when the four size-field bytes of the cell at data offset `off` lie
/// within the cell area.
pub open spec fn spec_cell_header_in_range(b: Seq<u8>, off: int) -> bool {
    0 <= off && off + BASE_BLOCK_SIZE + CELL_HEADER_SIZE <= b.len()
}

/// True when the cell at data offset `off` is allocated, 8-aligned, at
/// least as large as the smallest cell (its size field plus a body of four
/// bytes), and ends within the cell area, so that resolving `off` to a cell
/// range succeeds.
pub open spec fn spec_cell_ok(b: Seq<u8>, off: int) -> bool {
    &&& spec_cell_header_in_range(b, off)
    &&& !(1 <= spec_cell_raw_size(b, off) < 0x8000_0000)
    &&& spec_cell_size(b, off) % 8 == 0
    &&& spec_cell_size(b, off) >= 8
    &&& off + BASE_BLOCK_SIZE + spec_cell_size(b, off) <= b.len()
}

/// Absolute byte position where the body of the cell at data offset `off`
/// starts (its size field excluded).
pub open spec fn spec_cell_body_start(off: int) -> int {
    off + BASE_BLOCK_SIZE + CELL_HEADER_SIZE
}

/// Number of body bytes of the cell at data offset `off`: the declared total
/// cell size includes the four-byte size field, which the body excludes.
pub open spec fn spec_cell_body_len(b: Seq<u8>, off: int) -> int {
    spec_cell_size(b, off) - CELL_HEADER_SIZE
}

/// Absolute byte position just past the body of the cell at data offset
/// `off`.
pub open spec fn spec_cell_body_end(b: Seq<u8>, off: int) -> int {
    spec_cell_body_start(off) + spec_cell_body_len(b, off)
}

/// The error reported when data offset `off` does not resolve to an allocated
/// cell: the checks run in a fixed order and the first mismatch is reported.
pub open spec fn spec_cell_err(b: Seq<u8>, off: int) -> NtHiveError {
    if !spec_cell_header_in_range(b, off) {
        NtHiveError::InvalidHeaderSize {
            offset: crate::helpers::spec_sat_add(off, BASE_BLOCK_SIZE as int),
            expected: CELL_HEADER_SIZE,
            actual: (if b.len() - BASE_BLOCK_SIZE >= off {
                b.len() - BASE_BLOCK_SIZE - off
            } else {
                0
            }) as usize,
        }
    } else if 1 <= spec_cell_raw_size(b, off) < 0x8000_0000 {
        NtHiveError::UnallocatedCell {
            offset: (off + BASE_BLOCK_SIZE) as usize,
            size: spec_cell_raw_size(b, off) as i32,
        }
    } else if spec_cell_size(b, off) % 8 != 0 {
        NtHiveError::InvalidSizeFieldAlignment {
            offset: (off + BASE_BLOCK_SIZE) as usize,
            size: spec_cell_size(b, off) as usize,
            expected_alignment: 8,
        }
    } else if spec_cell_size(b, off) < 8 {
        NtHiveError::InvalidSizeField {
            offset: (off + BASE_BLOCK_SIZE) as usize,
            expected: 8,
            actual: spec_cell_size(b, off) as usize,
        }
    } else {
        NtHiveError::InvalidSizeField {
            offset: (off + BASE_BLOCK_SIZE) as usize,
            expected: spec_cell_body_len(b, off) as usize,
            actual: (b.len() - spec_cell_body_start(off)) as usize,
        }
    }
}

/// Root structure describing a registry hive.
///
/// A `Hive` borrows the caller's byte buffer; all derived entities are views
/// into the same buffer, addressed by absolute byte positions. The buffer is
/// exposed read-only; constructing a `Hive` directly is equivalent to
/// [`Hive::without_validation`] without the length check.
#[derive(Clone, Copy, Debug)]
pub struct Hive<'a> {
    pub bytes: &'a [u8],
}

impl<'a> View for Hive<'a> {
    type V = Seq<u8>;

    open spec fn view(&self) -> Seq<u8> {
        self.bytes@
    }
}

impl<'a> Hive<'a> {
    /// True when the buffer is large enough to contain a base block; every
    /// `Hive` that a constructor hands out satisfies this.
    pub open spec fn wf(self) -> bool {
        spec_base_block_present(self@)
    }

    /// Creates a new `Hive` from any byte slice.
    /// Performs basic validation and rejects any invalid hive.
    ///
    /// [`Hive::without_validation`] accepts hives that fail validation.
    pub fn new(bytes: &'a [u8]) -> (r: Result<Hive<'a>, NtHiveError>)
        ensures
            match r {
                Ok(h) => {
                    &&& h@ == bytes@
                    &&& h.wf()
                    &&& spec_base_block_valid(bytes@)
                },
                Err(e) => {
                    &&& !(spec_base_block_present(bytes@) && spec_base_block_valid(bytes@))
                    &&& e == (if !spec_base_block_present(bytes@) {
                        NtHiveError::InvalidHeaderSize {
                            offset: 0,
                            expected: BASE_BLOCK_SIZE,
                            actual: bytes@.len() as usize,
                        }
                    } else {
                        spec_base_block_err(bytes@)
                    })
                },
            },
    {
        let hive = Hive::without_validation(bytes)?;
        hive.validate()?;
        Ok(hive)
    }

    /// Creates a new `Hive` from any byte slice, without validating the base
    /// block.
    ///
    /// The base block may be validated later via [`Hive::validate`]. This is a
    /// solution for accessing parts of hives that have not been fully flushed
    /// to disk (e.g. due to hibernation and mismatching sequence numbers).
    pub fn without_validation(bytes: &'a [u8]) -> (r: Result<Hive<'a>, NtHiveError>)
        ensures
            match r {
                Ok(h) => {
                    &&& h@ == bytes@
                    &&& h.wf()
                    &&& spec_base_block_present(bytes@)
                },
                Err(e) => {
                    &&& !spec_base_block_present(bytes@)
                    &&& e == NtHiveError::InvalidHeaderSize {
                        offset: 0,
                        expected: BASE_BLOCK_SIZE,
                        actual: bytes@.len() as usize,
                    }
                },
            },
    {
        if bytes.len() < BASE_BLOCK_SIZE {
            return Err(
                NtHiveError::InvalidHeaderSize {
                    offset: 0,
                    expected: BASE_BLOCK_SIZE,
                    actual: bytes.len(),
                },
            );
        }
        Ok(Hive { bytes })
    }

    /// Performs basic validations on the base block of this hive.
    ///
    /// A hive read via [`Hive::new`] has already passed these validations;
    /// this function is only relevant for hives opened via
    /// [`Hive::without_validation`].
    pub fn validate(&self) -> (r: Result<(), NtHiveError>)
        requires
            self.wf(),
        ensures
            match r {
                Ok(()) => spec_base_block_valid(self@),
                Err(e) => !spec_base_block_valid(self@) && e == spec_base_block_err(self@),
            },
    {
        self.validate_signature()?;
        self.validate_sequence_numbers()?;
        self.validate_version()?;
        self.validate_file_type()?;
        self.validate_file_format()?;
        self.validate_data_size()?;
        self.validate_clustering_factor()?;
        self.validate_checksum()?;
        Ok(())
    }

    fn validate_signature(&self) -> (r: Result<(), NtHiveError>)
        requires
            self.wf(),
        ensures
            match r {
                Ok(()) => spec_signature_ok(self@),
                Err(e) => !spec_signature_ok(self@) && e == NtHiveError::InvalidFourByteSignature {
                    offset: 0,
                    expected: [0x72u8, 0x65u8, 0x67u8, 0x66u8],
                    actual: [self@[0], self@[1], self@[2], self@[3]],
                },
            },
    {
        let s0 = self.bytes[0];
        let s1 = self.bytes[1];
        let s2 = self.bytes[2];
        let s3 = self.bytes[3];
        if s0 == 0x72 && s1 == 0x65 && s2 == 0x67 && s3 == 0x66 {
            proof {
                assert(self@.subrange(0, 4) =~= seq![0x72u8, 0x65u8, 0x67u8, 0x66u8]);
            }
            Ok(())
        } else {
            proof {
                assert(self@.subrange(0, 4)[0] == self@[0]);
                assert(self@.subrange(0, 4)[1] == self@[1]);
                assert(self@.subrange(0, 4)[2] == self@[2]);
                assert(self@.subrange(0, 4)[3] == self@[3]);
            }
            Err(
                NtHiveError::InvalidFourByteSignature {
                    offset: 0,
                    expected: [0x72u8, 0x65u8, 0x67u8, 0x66u8],
                    actual: [s0, s1, s2, s3],
                },
            )
        }
    }

    fn validate_sequence_numbers(&self) -> (r: Result<(), NtHiveError>)
        requires
            self.wf(),
        ensures
            match r {
                Ok(()) => spec_sequence_numbers_ok(self@),
                Err(e) => !spec_sequence_numbers_ok(self@) && e
                    == NtHiveError::SequenceNumberMismatch {
                    primary: spec_le32(self@, BASE_PRIMARY_SEQUENCE as int),
                    secondary: spec_le32(self@, BASE_SECONDARY_SEQUENCE as int),
                },
            },
    {
        let primary = read_le32(self.bytes, BASE_PRIMARY_SEQUENCE);
        let secondary = read_le32(self.bytes, BASE_SECONDARY_SEQUENCE);
        if primary == secondary {
            Ok(())
        } else {
            Err(NtHiveError::SequenceNumberMismatch { primary, secondary })
        }
    }

    fn validate_version(&self) -> (r: Result<(), NtHiveError>)
        requires
            self.wf(),
        ensures
            match r {
                Ok(()) => spec_version_ok(self@),
                Err(e) => !spec_version_ok(self@) && e == NtHiveError::UnsupportedVersion {
                    major: spec_le32(self@, BASE_MAJOR_VERSION as int),
                    minor: spec_le32(self@, BASE_MINOR_VERSION as int),
                },
            },
    {
        let major = self.major_version();
        let minor = self.minor_version();
        if major == 1 && minor >= 3 {
            Ok(())
        } else {
            Err(NtHiveError::UnsupportedVersion { major, minor })
        }
    }

    fn validate_file_type(&self) -> (r: Result<(), NtHiveError>)
        requires
            self.wf(),
        ensures
            match r {
                Ok(()) => spec_file_type_ok(self@),
                Err(e) => !spec_file_type_ok(self@) && e == NtHiveError::UnsupportedFileType {
                    expected: 0,
                    actual: spec_le32(self@, BASE_FILE_TYPE as int),
                },
            },
    {
        let file_type = read_le32(self.bytes, BASE_FILE_TYPE);
        if file_type == 0 {
            Ok(())
        } else {
            Err(NtHiveError::UnsupportedFileType { expected: 0, actual: file_type })
        }
    }

    fn validate_file_format(&self) -> (r: Result<(), NtHiveError>)
        requires
            self.wf(),
        ensures
            match r {
                Ok(()) => spec_file_format_ok(self@),
                Err(e) => !spec_file_format_ok(self@) && e == NtHiveError::UnsupportedFileFormat {
                    expected: 1,
                    actual: spec_le32(self@, BASE_FILE_FORMAT as int),
                },
            },
    {
        let file_format = read_le32(self.bytes, BASE_FILE_FORMAT);
        if file_format == 1 {
            Ok(())
        } else {
            Err(NtHiveError::UnsupportedFileFormat { expected: 1, actual: file_format })
        }
    }

    fn validate_data_size(&self) -> (r: Result<(), NtHiveError>)
        requires
            self.wf(),
        ensures
            match r {
                Ok(()) => spec_data_size_ok(self@),
                Err(e) => {
                    &&& !spec_data_size_ok(self@)
                    &&& e == (if spec_le32(self@, BASE_DATA_SIZE as int) as int % 4096 != 0 {
                        NtHiveError::InvalidSizeFieldAlignment {
                            offset: BASE_DATA_SIZE,
                            size: spec_le32(self@, BASE_DATA_SIZE as int) as usize,
                            expected_alignment: 4096,
                        }
                    } else {
                        NtHiveError::InvalidSizeField {
                            offset: BASE_DATA_SIZE,
                            expected: spec_le32(self@, BASE_DATA_SIZE as int) as usize,
                            actual: (self@.len() - BASE_BLOCK_SIZE) as usize,
                        }
                    })
                },
            },
    {
        let data_size = read_le32(self.bytes, BASE_DATA_SIZE) as usize;
        if data_size % 4096 != 0 {
            return Err(
                NtHiveError::InvalidSizeFieldAlignment {
                    offset: BASE_DATA_SIZE,
                    size: data_size,
                    expected_alignment: 4096,
                },
            );
        }
        let cell_area_len = self.bytes.len() - BASE_BLOCK_SIZE;
        if data_size > cell_area_len {
            return Err(
                NtHiveError::InvalidSizeField {
                    offset: BASE_DATA_SIZE,
                    expected: data_size,
                    actual: cell_area_len,
                },
            );
        }
        Ok(())
    }

    fn validate_clustering_factor(&self) -> (r: Result<(), NtHiveError>)
        requires
            self.wf(),
        ensures
            match r {
                Ok(()) => spec_clustering_factor_ok(self@),
                Err(e) => !spec_clustering_factor_ok(self@) && e
                    == NtHiveError::UnsupportedClusteringFactor {
                    expected: 1,
                    actual: spec_le32(self@, BASE_CLUSTERING_FACTOR as int),
                },
            },
    {
        let clustering_factor = read_le32(self.bytes, BASE_CLUSTERING_FACTOR);
        if clustering_factor == 1 {
            Ok(())
        } else {
            Err(NtHiveError::UnsupportedClusteringFactor { expected: 1, actual: clustering_factor })
        }
    }

    fn validate_checksum(&self) -> (r: Result<(), NtHiveError>)
        requires
            self.wf(),
        ensures
            match r {
                Ok(()) => spec_checksum_ok(self@),
                Err(e) => !spec_checksum_ok(self@) && e == NtHiveError::InvalidChecksum {
                    expected: spec_le32(self@, BASE_CHECKSUM as int),
                    actual: spec_checksum(self@),
                },
            },
    {
        let word_count: usize = BASE_CHECKSUM / 4;
        let mut raw: u32 = 0;
        let mut i: usize = 0;
        while i < word_count
            invariant
                self.wf(),
                i <= word_count,
                word_count == BASE_CHECKSUM / 4,
                raw == spec_xor_words(self@, i as int),
            decreases word_count - i,
        {
            let word = read_le32(self.bytes, i * 4);
            raw = raw ^ word;
            i = i + 1;
        }
        let mut calculated: u32 = raw;
        if calculated == 0 {
            calculated = 1;
        } else if calculated == 0xFFFF_FFFF {
            calculated = 0xFFFF_FFFE;
        }
        let stored = read_le32(self.bytes, BASE_CHECKSUM);
        // Be lenient on read: accept the normalized value as well as the raw
        // XOR value.
        if stored == calculated || stored == raw {
            Ok(())
        } else {
            Err(NtHiveError::InvalidChecksum { expected: stored, actual: calculated })
        }
    }

    /// Returns the major version of this hive.
    ///
    /// The only known value is `1`.
    pub fn major_version(&self) -> (r: u32)
        requires
            self.wf(),
        ensures
            r == spec_le32(self@, BASE_MAJOR_VERSION as int),
    {
        read_le32(self.bytes, BASE_MAJOR_VERSION)
    }

    /// Returns the minor version of this hive.
    pub fn minor_version(&self) -> (r: u32)
        requires
            self.wf(),
        ensures
            r == spec_le32(self@, BASE_MINOR_VERSION as int),
    {
        read_le32(self.bytes, BASE_MINOR_VERSION)
    }

    /// Clears the volatile-subkey-count field of all key nodes recursively,
    /// in pre-order from the root: each node's field first, then its
    /// subtrees in on-disk order.
    ///
    /// This needs to be done before passing the hive to an NT kernel during
    /// boot. The pass requires exclusive access to the buffer; it writes only
    /// volatile-subkey-count fields and never reallocates, moves, or resizes
    /// cells. On every buffer whose volatile fields do not overlap the
    /// traversed structure (see
    /// [`spec_volatile_independent`](crate::key_node::spec_volatile_independent)),
    /// the contract pins the pass down: only volatile-subkey-count bytes
    /// change and become zero, the pass succeeds exactly when the key-node
    /// tree under the root resolves to the depth bound, and on success every
    /// reachable key node has a zero volatile-subkey count. An error during
    /// traversal aborts the pass and leaves the counters already cleared at
    /// zero, so a retry is safe.
    pub fn clear_volatile_subkeys(bytes: &mut Vec<u8>) -> (r: Result<(), NtHiveError>)
        ensures
            final(bytes)@.len() == old(bytes)@.len(),
            crate::key_node::spec_volatile_independent(old(bytes)@) ==> {
                &&& crate::key_node::spec_agrees_except_volatile(old(bytes)@, final(bytes)@)
                &&& forall|p: int| #![trigger final(bytes)@[p]]
                    0 <= p < old(bytes)@.len() && final(bytes)@[p] != old(bytes)@[p]
                        ==> crate::key_node::spec_subtree_vol_byte(
                        old(bytes)@,
                        spec_le32(old(bytes)@, BASE_ROOT_CELL_OFFSET as int) as int,
                        crate::key_node::TRAVERSAL_DEPTH_LIMIT as nat,
                        p,
                    )
                &&& (r is Ok <==> (old(bytes)@.len() >= BASE_BLOCK_SIZE && spec_le32(
                    old(bytes)@,
                    BASE_ROOT_CELL_OFFSET as int,
                ) != NO_OFFSET && crate::key_node::spec_subtree_resolves(
                    old(bytes)@,
                    spec_le32(old(bytes)@, BASE_ROOT_CELL_OFFSET as int) as int,
                    crate::key_node::TRAVERSAL_DEPTH_LIMIT as nat,
                )))
                &&& (r is Ok ==> crate::key_node::spec_subtree_cleared(
                    final(bytes)@,
                    spec_le32(old(bytes)@, BASE_ROOT_CELL_OFFSET as int) as int,
                    crate::key_node::TRAVERSAL_DEPTH_LIMIT as nat,
                ))
            },
    {
        if bytes.len() < BASE_BLOCK_SIZE {
            return Err(
                NtHiveError::InvalidHeaderSize {
                    offset: 0,
                    expected: BASE_BLOCK_SIZE,
                    actual: bytes.len(),
                },
            );
        }
        let root_cell_offset = read_le32(bytes.as_slice(), BASE_ROOT_CELL_OFFSET);
        if root_cell_offset == NO_OFFSET {
            return Err(
                NtHiveError::InvalidHeaderSize {
                    offset: crate::helpers::sat_add(root_cell_offset as usize, BASE_BLOCK_SIZE),
                    expected: CELL_HEADER_SIZE,
                    actual: 0,
                },
            );
        }
        crate::key_node::clear_subkeys_rec(
            bytes,
            root_cell_offset,
            crate::key_node::TRAVERSAL_DEPTH_LIMIT,
        )
    }

    /// Returns the root [`KeyNode`](crate::key_node::KeyNode) of this hive.
    pub fn root_key_node(&self) -> (r: Result<crate::key_node::KeyNode<'a>, NtHiveError>)
        requires
            self.wf(),
        ensures
            ({
                let ro = spec_le32(self@, BASE_ROOT_CELL_OFFSET as int);
                match r {
                    Ok(kn) => {
                        &&& ro != NO_OFFSET
                        &&& crate::key_node::spec_nk_ok(self@, ro as int)
                        &&& kn == crate::key_node::KeyNode::spec_at(*self, ro as int)
                        &&& kn.wf()
                    },
                    Err(e) => {
                        &&& !(ro != NO_OFFSET && crate::key_node::spec_nk_ok(self@, ro as int))
                        &&& crate::key_node::spec_nk_err(self@, ro as int, e)
                    },
                }
            }),
    {
        let root_cell_offset = read_le32(self.bytes, BASE_ROOT_CELL_OFFSET);
        if root_cell_offset == NO_OFFSET {
            return Err(
                NtHiveError::InvalidHeaderSize {
                    offset: crate::helpers::sat_add(root_cell_offset as usize, BASE_BLOCK_SIZE),
                    expected: CELL_HEADER_SIZE,
                    actual: 0,
                },
            );
        }
        crate::key_node::KeyNode::from_data_offset(*self, root_cell_offset)
    }

    /// Resolves the data offset `data_offset` to the absolute byte range of
    /// the body of the allocated cell it refers to. The declared cell size
    /// includes the four-byte size field, so the body holds four bytes fewer
    /// than the declared size.
    ///
    /// Fails with a distinct error when the size field is out of range, the
    /// cell is unallocated (positive size), the size is not 8-aligned or
    /// below the eight-byte minimum, or the cell extends past the cell
    /// area.
    pub fn cell_range_from_data_offset(&self, data_offset: u32) -> (r: Result<
        Range<usize>,
        NtHiveError,
    >)
        requires
            self.wf(),
            data_offset != NO_OFFSET,
        ensures
            match r {
                Ok(rg) => {
                    &&& spec_cell_ok(self@, data_offset as int)
                    &&& rg.start == spec_cell_body_start(data_offset as int)
                    &&& rg.end == spec_cell_body_end(self@, data_offset as int)
                    &&& rg.start <= rg.end <= self@.len()
                },
                Err(e) => {
                    &&& !spec_cell_ok(self@, data_offset as int)
                    &&& e == spec_cell_err(self@, data_offset as int)
                },
            },
    {
        let data_offset = data_offset as usize;
        let data_len = self.bytes.len() - BASE_BLOCK_SIZE;

        // The four size-field bytes must lie within the cell area.
        let remaining_range = data_offset..data_len;
        let header_range = match byte_subrange(&remaining_range, CELL_HEADER_SIZE) {
            Some(rg) => rg,
            None => {
                let remaining = if data_offset <= data_len {
                    data_len - data_offset
                } else {
                    0
                };
                return Err(
                    NtHiveError::InvalidHeaderSize {
                        offset: crate::helpers::sat_add(data_offset, BASE_BLOCK_SIZE),
                        expected: CELL_HEADER_SIZE,
                        actual: remaining,
                    },
                );
            },
        };

        let raw_size = read_le32(self.bytes, data_offset + BASE_BLOCK_SIZE);

        // A positive size field marks an unallocated cell.
        if 1 <= raw_size && raw_size < 0x8000_0000 {
            return Err(
                NtHiveError::UnallocatedCell {
                    offset: data_offset + BASE_BLOCK_SIZE,
                    size: raw_size as i32,
                },
            );
        }
        let cell_size: usize = if raw_size == 0 {
            0
        } else {
            (0x1_0000_0000u64 - raw_size as u64) as usize
        };

        // The cell size must be a multiple of 8 bytes.
        if cell_size % 8 != 0 {
            return Err(
                NtHiveError::InvalidSizeFieldAlignment {
                    offset: data_offset + BASE_BLOCK_SIZE,
                    size: cell_size,
                    expected_alignment: 8,
                },
            );
        }

        // The declared size covers the size field itself, so it must be at
        // least the eight-byte minimum cell.
        if cell_size < 8 {
            return Err(
                NtHiveError::InvalidSizeField {
                    offset: data_offset + BASE_BLOCK_SIZE,
                    expected: 8,
                    actual: cell_size,
                },
            );
        }
        let body_len = cell_size - CELL_HEADER_SIZE;

        // The cell body must end within the cell area.
        let body_start = header_range.end;
        let remaining_range = body_start..data_len;
        match byte_subrange(&remaining_range, body_len) {
            Some(_) => Ok(
                body_start + BASE_BLOCK_SIZE..body_start + BASE_BLOCK_SIZE + body_len,
            ),
            None => Err(
                NtHiveError::InvalidSizeField {
                    offset: data_offset + BASE_BLOCK_SIZE,
                    expected: body_len,
                    actual: data_len - body_start,
                },
            ),
        }
    }
}

} // verus!
