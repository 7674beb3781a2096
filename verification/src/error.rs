use vstd::prelude::*;

use crate::key_value::KeyValueDataType;

verus! {

/// Central error type of this crate.
///
/// Every variant carries the absolute byte offset of the offending field where
/// one is meaningful, together with the expected and actual values.
#[derive(Clone, Debug, PartialEq, Eq)]
pub enum NtHiveError {
    /// The checksum in the base block should be `expected`, but it is `actual`.
    InvalidChecksum { expected: u32, actual: u32 },
    /// The data at `offset` should have a size of `expected` bytes, but it
    /// only has `actual` bytes.
    InvalidDataSize { offset: usize, expected: usize, actual: usize },
    /// The 4-byte signature field at `offset` should contain `expected`, but
    /// it contains `actual`.
    InvalidFourByteSignature { offset: usize, expected: [u8; 4], actual: [u8; 4] },
    /// The structure at `offset` should have a size of `expected` bytes, but
    /// only `actual` bytes are left in the slice.
    InvalidHeaderSize { offset: usize, expected: usize, actual: usize },
    /// Expected one of the key value data types in `expected`, but found
    /// `actual`.
    InvalidKeyValueDataType { expected: Vec<KeyValueDataType>, actual: KeyValueDataType },
    /// The size field at `offset` specifies `expected` bytes, but only
    /// `actual` bytes are left in the slice.
    InvalidSizeField { offset: usize, expected: usize, actual: usize },
    /// The size field at `offset` specifies `size` bytes, but they are not
    /// aligned to the expected `expected_alignment` bytes.
    InvalidSizeFieldAlignment { offset: usize, size: usize, expected_alignment: usize },
    /// The 2-byte signature field at `offset` should contain one of the
    /// signatures in `expected`, but it contains `actual`.
    InvalidTwoByteSignature { offset: usize, expected: Vec<u8>, actual: [u8; 2] },
    /// The sequence numbers in the base block do not match.
    SequenceNumberMismatch { primary: u32, secondary: u32 },
    /// The cell at `offset` with a size of `size` bytes is unallocated.
    UnallocatedCell { offset: usize, size: i32 },
    /// The clustering factor in the base block is expected to be `expected`,
    /// but it is `actual`.
    UnsupportedClusteringFactor { expected: u32, actual: u32 },
    /// The file format in the base block is expected to be `expected`, but it
    /// is `actual`.
    UnsupportedFileFormat { expected: u32, actual: u32 },
    /// The file type in the base block is expected to be `expected`, but it is
    /// `actual`.
    UnsupportedFileType { expected: u32, actual: u32 },
    /// The key value data type field at `offset` holds `actual`, which is not
    /// a supported data type code.
    UnsupportedKeyValueDataType { offset: usize, actual: u32 },
    /// The version in the base block is unsupported.
    UnsupportedVersion { major: u32, minor: u32 },
}

} // verus!
