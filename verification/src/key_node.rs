use core::ops::Range;
use vstd::prelude::*;

use crate::encoding::{spec_fold, spec_latin1_chars, spec_utf16_decode, spec_utf16_units};
use crate::error::NtHiveError;
use crate::helpers::{read_le16, read_le32, spec_le16, spec_le32};
use crate::hive::{
    spec_cell_body_end, spec_cell_body_len, spec_cell_body_start, spec_cell_err, spec_cell_ok,
    Hive, NO_OFFSET,
};
use crate::encoding::{
    cmp_chars, fold_chars, lemma_chars_cmp_eq, lemma_chars_cmp_flip, lemma_chars_cmp_le_lt,
    lemma_chars_cmp_lt_le, lemma_chars_cmp_trans, spec_chars_cmp, NameOrdering,
};
use crate::index_root::{spec_ri_items_of_list, IndexRootItemRanges, INDEX_ROOT_ITEM_SIZE};
use crate::leaf::{spec_leaf_items_of_list, spec_ri_leaf_ok, LeafItemRanges};
use crate::subkeys_list::{
    parse_subkeys_list, spec_list_body_end, spec_list_cell_ok, spec_list_count,
    spec_list_is_index_root, spec_list_is_leaf, spec_list_items_start, SubkeysListHeader,
};
use crate::string::NtHiveNameString;
use vstd::slice::slice_subrange;

verus! {

/// Size in bytes of the fixed key-node header; the key name follows it.
pub const KEY_NODE_HEADER_SIZE: usize = 76;

/// Flag bit: the key name is stored in Latin-1 instead of UTF-16LE.
pub const KEY_COMP_NAME: u16 = 0x0020;

/// Position of the flags field, relative to the header start.
pub const NK_FLAGS: usize = 2;

/// Position of the volatile-subkey-count field, relative to the header start.
pub const NK_VOLATILE_SUBKEY_COUNT: usize = 24;

/// Position of the subkeys-list-offset field, relative to the header start.
pub const NK_SUBKEYS_LIST_OFFSET: usize = 28;

/// Position of the key-values-count field, relative to the header start.
pub const NK_KEY_VALUES_COUNT: usize = 36;

/// Position of the key-values-list-offset field, relative to the header
/// start.
pub const NK_KEY_VALUES_LIST_OFFSET: usize = 40;

/// Position of the class-name-offset field, relative to the header start.
pub const NK_CLASS_NAME_OFFSET: usize = 48;

/// Position of the key-name-length field, relative to the header start.
pub const NK_KEY_NAME_LENGTH: usize = 72;

/// Position of the class-name-length field, relative to the header start.
pub const NK_CLASS_NAME_LENGTH: usize = 74;

/// True when the cell at data offset `off` holds a key-node record: the cell
/// resolves, its body holds the fixed header, and the signature is `nk`.
pub open spec fn spec_nk_ok(b: Seq<u8>, off: int) -> bool {
    &&& off != NO_OFFSET
    &&& spec_cell_ok(b, off)
    &&& spec_cell_body_len(b, off) >= KEY_NODE_HEADER_SIZE
    &&& b[spec_cell_body_start(off)] == 0x6e
    &&& b[spec_cell_body_start(off) + 1] == 0x6b
}

/// The exact error reported when data offset `off` does not resolve to a
/// key-node record: the sentinel offset, the cell-resolution error, a body
/// too short for the fixed header, or a wrong two-byte signature, in that
/// order.
pub open spec fn spec_nk_err(b: Seq<u8>, off: int, e: NtHiveError) -> bool {
    if off == NO_OFFSET {
        e == NtHiveError::InvalidHeaderSize {
            offset: crate::helpers::spec_sat_add(off, crate::hive::BASE_BLOCK_SIZE as int),
            expected: crate::hive::CELL_HEADER_SIZE,
            actual: 0,
        }
    } else if !spec_cell_ok(b, off) {
        e == spec_cell_err(b, off)
    } else if spec_cell_body_len(b, off) < KEY_NODE_HEADER_SIZE {
        e == NtHiveError::InvalidHeaderSize {
            offset: spec_cell_body_start(off) as usize,
            expected: KEY_NODE_HEADER_SIZE,
            actual: spec_cell_body_len(b, off) as usize,
        }
    } else {
        e matches NtHiveError::InvalidTwoByteSignature { offset, expected, actual } && offset
            == spec_cell_body_start(off) as usize && expected@ == seq![0x6eu8, 0x6bu8] && actual
            == [b[spec_cell_body_start(off)], b[spec_cell_body_start(off) + 1]]
    }
}

/// The case-folded name of the key node referenced by data offset `off`:
/// `None` when no key node lies there or its name cannot be decoded.
#[verifier::opaque]
pub open spec fn spec_nk_folded(hive: Hive, off: int) -> Option<Seq<char>> {
    if spec_nk_ok(hive@, off) {
        KeyNode::spec_at(hive, off).spec_folded_name()
    } else {
        None
    }
}

/// The case-folded name of the key node referenced by Leaf item `i`, or the
/// empty sequence when there is none.
pub open spec fn spec_leaf_folded(hive: Hive, items: LeafItemRanges, i: int) -> Seq<char> {
    match spec_nk_folded(hive, items.spec_offset(hive@, i) as int) {
        Some(f) => f,
        None => Seq::empty(),
    }
}

/// True when every item of the Leaf references a key node whose name
/// decodes, so that a name lookup can compare against every item.
pub open spec fn spec_leaf_searchable(hive: Hive, items: LeafItemRanges) -> bool {
    forall|i: int|
        0 <= i < items.count ==> (#[trigger] spec_nk_folded(
            hive,
            items.spec_offset(hive@, i) as int,
        )) is Some
}

/// True when the Leaf's items are strictly sorted by case-folded key name.
pub open spec fn spec_leaf_sorted(hive: Hive, items: LeafItemRanges) -> bool {
    forall|i: int, j: int|
        0 <= i < j < items.count ==> spec_chars_cmp(
            #[trigger] spec_leaf_folded(hive, items, i),
            #[trigger] spec_leaf_folded(hive, items, j),
        ) == NameOrdering::Less
}

/// A single key that belongs to a [`Hive`].
/// It has a name and possibly subkeys and values.
///
/// On-Disk Signature: `nk`
#[derive(Clone, Copy, Debug)]
pub struct KeyNode<'a> {
    /// The hive this key belongs to.
    pub hive: Hive<'a>,
    /// Absolute position of the fixed header.
    pub header_start: usize,
    /// Absolute position of the trailing data (the key name).
    pub data_start: usize,
    /// Absolute position just past the record's cell body.
    pub data_end: usize,
}

impl<'a> KeyNode<'a> {
    /// True when the record lies within the buffer and carries the `nk`
    /// signature; every `KeyNode` handed out satisfies this.
    pub open spec fn wf(self) -> bool {
        &&& self.hive.wf()
        &&& self.header_start + KEY_NODE_HEADER_SIZE == self.data_start
        &&& self.data_start <= self.data_end <= self.hive@.len()
        &&& self.hive@[self.header_start as int] == 0x6e
        &&& self.hive@[self.header_start as int + 1] == 0x6b
    }

    /// The key node denoted by the cell at data offset `off`.
    pub open spec fn spec_at(hive: Hive<'a>, off: int) -> KeyNode<'a> {
        KeyNode {
            hive,
            header_start: spec_cell_body_start(off) as usize,
            data_start: (spec_cell_body_start(off) + KEY_NODE_HEADER_SIZE) as usize,
            data_end: spec_cell_body_end(hive@, off) as usize,
        }
    }

    /// The flags field.
    pub open spec fn spec_flags(self) -> u16 {
        spec_le16(self.hive@, self.header_start + NK_FLAGS)
    }

    /// True when the key name is stored in Latin-1.
    pub open spec fn spec_comp_name(self) -> bool {
        self.spec_flags() & KEY_COMP_NAME != 0
    }

    /// The declared byte length of the key name.
    pub open spec fn spec_name_len(self) -> u16 {
        spec_le16(self.hive@, self.header_start + NK_KEY_NAME_LENGTH)
    }

    /// True when the declared key name fits in the record's trailing data.
    pub open spec fn spec_name_ok(self) -> bool {
        self.data_start + self.spec_name_len() <= self.data_end
    }

    /// The raw bytes of the key name.
    pub open spec fn spec_name_bytes(self) -> Seq<u8> {
        self.hive@.subrange(self.data_start as int, self.data_start + self.spec_name_len())
    }

    /// The decoded characters of the key name: `None` when the name does not
    /// fit its record or holds an unpaired UTF-16 surrogate.
    pub open spec fn spec_name_chars(self) -> Option<Seq<char>> {
        if !self.spec_name_ok() {
            None
        } else if self.spec_comp_name() {
            Some(spec_latin1_chars(self.spec_name_bytes()))
        } else {
            spec_utf16_decode(spec_utf16_units(self.spec_name_bytes()))
        }
    }

    /// The case-folded key name, under which all lookups compare.
    pub open spec fn spec_folded_name(self) -> Option<Seq<char>> {
        match self.spec_name_chars() {
            Some(cs) => Some(spec_fold(cs)),
            None => None,
        }
    }

    /// The subkeys-list offset field.
    pub open spec fn spec_subkeys_list_offset(self) -> u32 {
        spec_le32(self.hive@, self.header_start + NK_SUBKEYS_LIST_OFFSET)
    }

    /// The key-values count field.
    pub open spec fn spec_values_count(self) -> u32 {
        spec_le32(self.hive@, self.header_start + NK_KEY_VALUES_COUNT)
    }

    /// The key-values-list offset field.
    pub open spec fn spec_values_list_offset(self) -> u32 {
        spec_le32(self.hive@, self.header_start + NK_KEY_VALUES_LIST_OFFSET)
    }

    /// The class-name offset field.
    pub open spec fn spec_class_name_offset(self) -> u32 {
        spec_le32(self.hive@, self.header_start + NK_CLASS_NAME_OFFSET)
    }

    /// The declared byte length of the class name.
    pub open spec fn spec_class_name_len(self) -> u16 {
        spec_le16(self.hive@, self.header_start + NK_CLASS_NAME_LENGTH)
    }

    /// Builds the key-node view over the cell body `cell_range`.
    pub(crate) fn from_cell_range(hive: Hive<'a>, cell_range: Range<usize>) -> (r: Result<
        KeyNode<'a>,
        NtHiveError,
    >)
        requires
            hive.wf(),
            cell_range.start <= cell_range.end <= hive@.len(),
        ensures
            match r {
                Ok(kn) => {
                    &&& kn.hive == hive
                    &&& kn.header_start == cell_range.start
                    &&& kn.data_start == cell_range.start + KEY_NODE_HEADER_SIZE
                    &&& kn.data_end == cell_range.end
                    &&& kn.wf()
                },
                Err(e) => {
                    ||| {
                        &&& cell_range.end - cell_range.start < KEY_NODE_HEADER_SIZE
                        &&& e == NtHiveError::InvalidHeaderSize {
                            offset: cell_range.start,
                            expected: KEY_NODE_HEADER_SIZE,
                            actual: (cell_range.end - cell_range.start) as usize,
                        }
                    }
                    ||| {
                        &&& cell_range.end - cell_range.start >= KEY_NODE_HEADER_SIZE
                        &&& !(hive@[cell_range.start as int] == 0x6e && hive@[cell_range.start
                            as int + 1] == 0x6b)
                        &&& e matches NtHiveError::InvalidTwoByteSignature {
                            offset,
                            expected,
                            actual,
                        }
                        &&& offset == cell_range.start
                        &&& expected@ == seq![0x6eu8, 0x6bu8]
                        &&& actual == [hive@[cell_range.start as int], hive@[cell_range.start
                            as int + 1]]
                    }
                },
            },
    {
        if cell_range.end - cell_range.start < KEY_NODE_HEADER_SIZE {
            return Err(
                NtHiveError::InvalidHeaderSize {
                    offset: cell_range.start,
                    expected: KEY_NODE_HEADER_SIZE,
                    actual: cell_range.end - cell_range.start,
                },
            );
        }
        let s0 = hive.bytes[cell_range.start];
        let s1 = hive.bytes[cell_range.start + 1];
        if !(s0 == 0x6e && s1 == 0x6b) {
            // "nk"
            return Err(
                NtHiveError::InvalidTwoByteSignature {
                    offset: cell_range.start,
                    expected: vec![0x6e, 0x6b],
                    actual: [s0, s1],
                },
            );
        }
        Ok(
            KeyNode {
                hive,
                header_start: cell_range.start,
                data_start: cell_range.start + KEY_NODE_HEADER_SIZE,
                data_end: cell_range.end,
            },
        )
    }

    /// Resolves the key node referenced by data offset `off`.
    pub(crate) fn from_data_offset(hive: Hive<'a>, off: u32) -> (r: Result<KeyNode<'a>, NtHiveError>)
        requires
            hive.wf(),
            off != NO_OFFSET,
        ensures
            match r {
                Ok(kn) => {
                    &&& spec_nk_ok(hive@, off as int)
                    &&& kn == KeyNode::spec_at(hive, off as int)
                    &&& kn.wf()
                },
                Err(e) => !spec_nk_ok(hive@, off as int) && spec_nk_err(hive@, off as int, e),
            },
    {
        let cell_range = hive.cell_range_from_data_offset(off)?;
        KeyNode::from_cell_range(hive, cell_range)
    }

    /// Returns the name of this key.
    ///
    /// Fails when the declared name length exceeds the record's trailing
    /// data.
    pub fn name(&self) -> (r: Result<NtHiveNameString<'a>, NtHiveError>)
        requires
            self.wf(),
        ensures
            match r {
                Ok(s) => {
                    &&& self.spec_name_ok()
                    &&& s.spec_bytes() == self.spec_name_bytes()
                    &&& (s matches NtHiveNameString::Latin1(_) <==> self.spec_comp_name())
                    &&& s.spec_chars() == self.spec_name_chars()
                },
                Err(e) => {
                    &&& !self.spec_name_ok()
                    &&& e == NtHiveError::InvalidSizeField {
                        offset: (self.header_start + NK_KEY_NAME_LENGTH) as usize,
                        expected: self.spec_name_len() as usize,
                        actual: (self.data_end - self.data_start) as usize,
                    }
                },
            },
    {
        let name_len = read_le16(self.hive.bytes, self.header_start + NK_KEY_NAME_LENGTH) as usize;
        if name_len > self.data_end - self.data_start {
            return Err(
                NtHiveError::InvalidSizeField {
                    offset: self.header_start + NK_KEY_NAME_LENGTH,
                    expected: name_len,
                    actual: self.data_end - self.data_start,
                },
            );
        }
        let name_bytes = slice_subrange(
            self.hive.bytes,
            self.data_start,
            self.data_start + name_len,
        );
        let flags = read_le16(self.hive.bytes, self.header_start + NK_FLAGS);
        if flags & KEY_COMP_NAME != 0 {
            Ok(NtHiveNameString::Latin1(name_bytes))
        } else {
            Ok(NtHiveNameString::Utf16LE(name_bytes))
        }
    }

    /// Returns the class name of this key, or `None` when it has none.
    ///
    /// A class name is always stored in UTF-16LE.
    pub fn class_name(&self) -> (r: Option<Result<NtHiveNameString<'a>, NtHiveError>>)
        requires
            self.wf(),
        ensures
            match r {
                None => self.spec_class_name_offset() == NO_OFFSET,
                Some(res) => {
                    &&& self.spec_class_name_offset() != NO_OFFSET
                    &&& match res {
                        Ok(s) => {
                            &&& spec_cell_ok(self.hive@, self.spec_class_name_offset() as int)
                            &&& self.spec_class_name_len() <= spec_cell_body_len(
                                self.hive@,
                                self.spec_class_name_offset() as int,
                            )
                            &&& s matches NtHiveNameString::Utf16LE(bs) && bs@ == self.hive@
                                .subrange(
                                spec_cell_body_start(self.spec_class_name_offset() as int),
                                spec_cell_body_start(self.spec_class_name_offset() as int)
                                    + self.spec_class_name_len(),
                            )
                        },
                        Err(e) => {
                            ||| {
                                &&& !spec_cell_ok(self.hive@, self.spec_class_name_offset() as int)
                                &&& e == spec_cell_err(
                                    self.hive@,
                                    self.spec_class_name_offset() as int,
                                )
                            }
                            ||| {
                                &&& spec_cell_ok(self.hive@, self.spec_class_name_offset() as int)
                                &&& self.spec_class_name_len() > spec_cell_body_len(
                                    self.hive@,
                                    self.spec_class_name_offset() as int,
                                )
                                &&& e == NtHiveError::InvalidSizeField {
                                    offset: (self.header_start + NK_CLASS_NAME_LENGTH) as usize,
                                    expected: self.spec_class_name_len() as usize,
                                    actual: spec_cell_body_len(
                                        self.hive@,
                                        self.spec_class_name_offset() as int,
                                    ) as usize,
                                }
                            }
                        },
                    }
                },
            },
    {
        let class_name_offset = read_le32(self.hive.bytes, self.header_start + NK_CLASS_NAME_OFFSET);
        if class_name_offset == NO_OFFSET {
            return None;
        }
        let cell_range = match self.hive.cell_range_from_data_offset(class_name_offset) {
            Ok(rg) => rg,
            Err(e) => {
                return Some(Err(e));
            },
        };
        let class_name_len = read_le16(self.hive.bytes, self.header_start + NK_CLASS_NAME_LENGTH)
            as usize;
        if class_name_len > cell_range.end - cell_range.start {
            return Some(
                Err(
                    NtHiveError::InvalidSizeField {
                        offset: self.header_start + NK_CLASS_NAME_LENGTH,
                        expected: class_name_len,
                        actual: cell_range.end - cell_range.start,
                    },
                ),
            );
        }
        let bytes = slice_subrange(
            self.hive.bytes,
            cell_range.start,
            cell_range.start + class_name_len,
        );
        Some(Ok(NtHiveNameString::Utf16LE(bytes)))
    }

    /// The case-folded key name, as compared by every lookup. An undecodable
    /// name is reported as an `InvalidDataSize` error at the name's position,
    /// carrying its byte length.
    pub(crate) fn folded_name(&self) -> (r: Result<Vec<char>, NtHiveError>)
        requires
            self.wf(),
        ensures
            match r {
                Ok(f) => self.spec_folded_name() == Some(f@),
                Err(_) => self.spec_folded_name() is None,
            },
    {
        let s = self.name()?;
        let chars = match s.decode() {
            Some(cs) => cs,
            None => {
                let s_len = s.len();
                return Err(
                    NtHiveError::InvalidDataSize {
                        offset: self.data_start,
                        expected: s_len,
                        actual: s_len,
                    },
                );
            },
        };
        Ok(fold_chars(&chars))
    }
}

/// True when the subkeys list of this key (if any) is well-formed for name
/// lookup: every referenced key node has a decodable name, Leafs are sorted
/// by case-folded name, and Index Root items reference ordered Leafs.
///
/// The sortedness of Leafs and the ordering of Index Root items are the
/// on-disk invariants that binary search relies on; a hive written by
/// Windows maintains them.
pub open spec fn spec_subkeys_searchable(kn: KeyNode) -> bool {
    let b = kn.hive@;
    let lo = kn.spec_subkeys_list_offset() as int;
    kn.spec_subkeys_list_offset() != NO_OFFSET ==> {
        &&& spec_list_cell_ok(b, lo)
        &&& (spec_list_is_leaf(b, lo) || spec_list_is_index_root(b, lo))
        &&& (spec_list_is_leaf(b, lo) ==> {
            let items = spec_leaf_items_of_list(b, lo);
            &&& spec_list_items_start(lo) + spec_list_count(b, lo) * items.item_size
                <= spec_list_body_end(b, lo)
            &&& items.wf(b)
            &&& spec_leaf_searchable(kn.hive, items)
            &&& spec_leaf_sorted(kn.hive, items)
        })
        &&& (spec_list_is_index_root(b, lo) ==> {
            let ri = spec_ri_items_of_list(b, lo);
            &&& spec_list_items_start(lo) + spec_list_count(b, lo) * INDEX_ROOT_ITEM_SIZE
                <= spec_list_body_end(b, lo)
            &&& ri.wf(b)
            &&& spec_ri_searchable(kn.hive, ri)
            &&& spec_ri_sorted(kn.hive, ri)
        })
    }
}

/// True when some direct subkey of `kn` has the given case-folded name.
pub open spec fn spec_has_subkey(kn: KeyNode, folded: Seq<char>) -> bool {
    let b = kn.hive@;
    let lo = kn.spec_subkeys_list_offset() as int;
    if kn.spec_subkeys_list_offset() == NO_OFFSET {
        false
    } else if spec_list_is_leaf(b, lo) {
        let items = spec_leaf_items_of_list(b, lo);
        exists|i: int|
            0 <= i < items.count && spec_nk_folded(
                kn.hive,
                (#[trigger] items.spec_offset(b, i)) as int,
            ) == Some(folded)
    } else if spec_list_is_index_root(b, lo) {
        let ri = spec_ri_items_of_list(b, lo);
        exists|k: int, i: int|
            {
                &&& 0 <= k < ri.count
                &&& 0 <= i < spec_ri_leaf_at(kn.hive, ri, k).count
                &&& spec_nk_folded(
                    kn.hive,
                    (#[trigger] spec_ri_leaf_at(kn.hive, ri, k).spec_offset(b, i)) as int,
                ) == Some(folded)
            }
    } else {
        false
    }
}

/// True when `c` is the direct subkey of `kn` listed at some subkeys-list
/// position whose case-folded name is `folded`.
pub open spec fn spec_is_subkey(kn: KeyNode, c: KeyNode, folded: Seq<char>) -> bool {
    let b = kn.hive@;
    let lo = kn.spec_subkeys_list_offset() as int;
    if kn.spec_subkeys_list_offset() == NO_OFFSET {
        false
    } else if spec_list_is_leaf(b, lo) {
        let items = spec_leaf_items_of_list(b, lo);
        exists|i: int|
            {
                &&& 0 <= i < items.count
                &&& c == KeyNode::spec_at(kn.hive, (#[trigger] items.spec_offset(b, i)) as int)
                &&& spec_nk_folded(kn.hive, items.spec_offset(b, i) as int) == Some(folded)
            }
    } else if spec_list_is_index_root(b, lo) {
        let ri = spec_ri_items_of_list(b, lo);
        exists|k: int, i: int|
            {
                &&& 0 <= k < ri.count
                &&& 0 <= i < spec_ri_leaf_at(kn.hive, ri, k).count
                &&& c == KeyNode::spec_at(
                    kn.hive,
                    (#[trigger] spec_ri_leaf_at(kn.hive, ri, k).spec_offset(b, i)) as int,
                )
                &&& spec_nk_folded(kn.hive, spec_ri_leaf_at(kn.hive, ri, k).spec_offset(b, i) as int)
                    == Some(folded)
            }
    } else {
        false
    }
}

/// Under a searchable, sorted subkeys list, at most one child carries a
/// given case-folded name: the strict name order rules out duplicates.
pub proof fn lemma_subkey_unique<'a>(
    kn: KeyNode<'a>,
    c1: KeyNode<'a>,
    c2: KeyNode<'a>,
    folded: Seq<char>,
)
    requires
        spec_subkeys_searchable(kn),
        spec_is_subkey(kn, c1, folded),
        spec_is_subkey(kn, c2, folded),
    ensures
        c1 == c2,
{
    let b = kn.hive@;
    let lo = kn.spec_subkeys_list_offset() as int;
    lemma_chars_cmp_eq(folded, folded);
    if spec_list_is_leaf(b, lo) {
        let items = spec_leaf_items_of_list(b, lo);
        let i1 = choose|i: int|
            {
                &&& 0 <= i < items.count
                &&& c1 == KeyNode::spec_at(kn.hive, (#[trigger] items.spec_offset(b, i)) as int)
                &&& spec_nk_folded(kn.hive, items.spec_offset(b, i) as int) == Some(folded)
            };
        let i2 = choose|i: int|
            {
                &&& 0 <= i < items.count
                &&& c2 == KeyNode::spec_at(kn.hive, (#[trigger] items.spec_offset(b, i)) as int)
                &&& spec_nk_folded(kn.hive, items.spec_offset(b, i) as int) == Some(folded)
            };
        if i1 != i2 {
            assert(spec_leaf_folded(kn.hive, items, i1) == folded);
            assert(spec_leaf_folded(kn.hive, items, i2) == folded);
            if i1 < i2 {
                assert(spec_chars_cmp(
                    spec_leaf_folded(kn.hive, items, i1),
                    spec_leaf_folded(kn.hive, items, i2),
                ) == NameOrdering::Less);
            } else {
                assert(spec_chars_cmp(
                    spec_leaf_folded(kn.hive, items, i2),
                    spec_leaf_folded(kn.hive, items, i1),
                ) == NameOrdering::Less);
            }
        }
    } else {
        let ri = spec_ri_items_of_list(b, lo);
        let p1 = choose|k: int, i: int|
            {
                &&& 0 <= k < ri.count
                &&& 0 <= i < spec_ri_leaf_at(kn.hive, ri, k).count
                &&& c1 == KeyNode::spec_at(
                    kn.hive,
                    (#[trigger] spec_ri_leaf_at(kn.hive, ri, k).spec_offset(b, i)) as int,
                )
                &&& spec_nk_folded(kn.hive, spec_ri_leaf_at(kn.hive, ri, k).spec_offset(b, i) as int)
                    == Some(folded)
            };
        let p2 = choose|k: int, i: int|
            {
                &&& 0 <= k < ri.count
                &&& 0 <= i < spec_ri_leaf_at(kn.hive, ri, k).count
                &&& c2 == KeyNode::spec_at(
                    kn.hive,
                    (#[trigger] spec_ri_leaf_at(kn.hive, ri, k).spec_offset(b, i)) as int,
                )
                &&& spec_nk_folded(kn.hive, spec_ri_leaf_at(kn.hive, ri, k).spec_offset(b, i) as int)
                    == Some(folded)
            };
        if p1 != p2 {
            assert(spec_leaf_folded(kn.hive, spec_ri_leaf_at(kn.hive, ri, p1.0), p1.1) == folded);
            assert(spec_leaf_folded(kn.hive, spec_ri_leaf_at(kn.hive, ri, p2.0), p2.1) == folded);
            if p1.0 < p2.0 || (p1.0 == p2.0 && p1.1 < p2.1) {
                lemma_subkeys_iteration_order(kn.hive, ri, p1.0, p1.1, p2.0, p2.1);
            } else {
                lemma_subkeys_iteration_order(kn.hive, ri, p2.0, p2.1, p1.0, p1.1);
            }
        }
    }
}

/// The direct subkey of `kn` whose case-folded name is `folded`; meaningful
/// when one exists, and unique under a searchable, sorted subkeys list.
pub open spec fn spec_subkey_node<'a>(kn: KeyNode<'a>, folded: Seq<char>) -> KeyNode<'a> {
    choose|c: KeyNode<'a>| spec_is_subkey(kn, c, folded)
}

/// When some child carries the name, the chosen child does.
pub proof fn lemma_subkey_node_is<'a>(kn: KeyNode<'a>, folded: Seq<char>)
    requires
        spec_has_subkey(kn, folded),
    ensures
        spec_is_subkey(kn, spec_subkey_node(kn, folded), folded),
{
    let b = kn.hive@;
    let lo = kn.spec_subkeys_list_offset() as int;
    if spec_list_is_leaf(b, lo) {
        let items = spec_leaf_items_of_list(b, lo);
        let i = choose|i: int|
            0 <= i < items.count && spec_nk_folded(
                kn.hive,
                (#[trigger] items.spec_offset(b, i)) as int,
            ) == Some(folded);
        let c = KeyNode::spec_at(kn.hive, items.spec_offset(b, i) as int);
        assert(spec_is_subkey(kn, c, folded));
    } else {
        let ri = spec_ri_items_of_list(b, lo);
        let p = choose|k: int, i: int|
            {
                &&& 0 <= k < ri.count
                &&& 0 <= i < spec_ri_leaf_at(kn.hive, ri, k).count
                &&& spec_nk_folded(kn.hive, (#[trigger] spec_ri_leaf_at(kn.hive, ri, k).spec_offset(
                    b,
                    i,
                )) as int) == Some(folded)
            };
        let c = KeyNode::spec_at(
            kn.hive,
            spec_ri_leaf_at(kn.hive, ri, p.0).spec_offset(b, p.1) as int,
        );
        assert(spec_is_subkey(kn, c, folded));
    }
    assert(exists|c: KeyNode<'a>| spec_is_subkey(kn, c, folded));
}

/// The result of chaining the single-name lookup over a component list:
/// the node reached by looking every component up in turn, or `None` when
/// some component has no match.
pub open spec fn spec_subpath_chain<'a>(kn: KeyNode<'a>, comps: Seq<Seq<char>>) -> Option<
    KeyNode<'a>,
>
    decreases comps.len(),
{
    if comps.len() == 0 {
        Some(kn)
    } else if spec_has_subkey(kn, spec_fold(comps[0])) {
        spec_subpath_chain(spec_subkey_node(kn, spec_fold(comps[0])), comps.drop_first())
    } else {
        None
    }
}

/// True when every subkeys list that the component chain walks through is
/// searchable and sorted, so that each lookup along the path is determined.
pub open spec fn spec_subpath_searchable(kn: KeyNode, comps: Seq<Seq<char>>) -> bool
    decreases comps.len(),
{
    comps.len() == 0 || {
        &&& spec_subkeys_searchable(kn)
        &&& (spec_has_subkey(kn, spec_fold(comps[0])) ==> spec_subpath_searchable(
            spec_subkey_node(kn, spec_fold(comps[0])),
            comps.drop_first(),
        ))
    }
}

impl<'a> KeyNode<'a> {
    /// Finds a single subkey by name using binary search under the
    /// case-folding order.
    ///
    /// On a hive whose subkey containers are well-formed and sorted (see
    /// [`spec_subkeys_searchable`]), the lookup returns exactly the subkey
    /// whose case-folded name equals the case-folded `name`, and `None` when
    /// no such subkey exists.
    pub fn subkey(&self, name: &str) -> (r: Option<Result<KeyNode<'a>, NtHiveError>>)
        requires
            self.wf(),
        ensures
            self.spec_subkeys_list_offset() == NO_OFFSET ==> r is None,
            match r {
                Some(res) => (res matches Ok(kn) ==> kn.wf() && kn.hive == self.hive),
                None => true,
            },
            spec_subkeys_searchable(*self) ==> match r {
                None => !spec_has_subkey(*self, spec_fold(name@)),
                Some(res) => match res {
                    Ok(kn) => {
                        &&& kn.wf()
                        &&& kn.hive == self.hive
                        &&& kn.spec_folded_name() == Some(spec_fold(name@))
                        &&& spec_is_subkey(*self, kn, spec_fold(name@))
                        &&& spec_has_subkey(*self, spec_fold(name@))
                    },
                    Err(_) => false,
                },
            },
    {
        let name_chars = crate::encoding::str_to_chars(name);
        let target = fold_chars(&name_chars);
        self.subkey_folded(&target)
    }

    /// Returns an iterator over the direct subkeys of this key, or `None`
    /// when it has none.
    pub fn subkeys(&self) -> (r: Option<Result<crate::subkeys_list::SubKeyNodes<'a>, NtHiveError>>)
        requires
            self.wf(),
        ensures
            match r {
                None => self.spec_subkeys_list_offset() == NO_OFFSET,
                Some(res) => {
                    &&& self.spec_subkeys_list_offset() != NO_OFFSET
                    &&& match res {
                        Ok(it) => {
                            &&& it.wf()
                            &&& it.spec_hive() == self.hive
                            &&& it.spec_index() == 0
                            &&& crate::subkeys_list::spec_subkeys_list_wf(
                                self.hive@,
                                self.spec_subkeys_list_offset() as int,
                            )
                            &&& it.spec_offsets() == crate::subkeys_list::spec_subkey_offsets(
                                self.hive@,
                                self.spec_subkeys_list_offset() as int,
                            )
                        },
                        Err(e) => {
                            &&& !crate::subkeys_list::spec_subkeys_list_wf(
                                self.hive@,
                                self.spec_subkeys_list_offset() as int,
                            )
                            &&& crate::subkeys_list::spec_subkeys_iter_err(
                                self.hive@,
                                self.spec_subkeys_list_offset() as int,
                                e,
                            )
                        },
                    }
                },
            },
    {
        let list_offset = read_le32(self.hive.bytes, self.header_start + NK_SUBKEYS_LIST_OFFSET);
        if list_offset == NO_OFFSET {
            return None;
        }
        Some(crate::subkeys_list::SubKeyNodes::new(self.hive, list_offset))
    }

    /// Finds a single subkey whose case-folded name equals `target`.
    pub(crate) fn subkey_folded(&self, target: &Vec<char>) -> (r: Option<
        Result<KeyNode<'a>, NtHiveError>,
    >)
        requires
            self.wf(),
        ensures
            self.spec_subkeys_list_offset() == NO_OFFSET ==> r is None,
            match r {
                Some(res) => (res matches Ok(kn) ==> kn.wf() && kn.hive == self.hive),
                None => true,
            },
            spec_subkeys_searchable(*self) ==> match r {
                None => !spec_has_subkey(*self, target@),
                Some(res) => match res {
                    Ok(kn) => {
                        &&& kn.wf()
                        &&& kn.hive == self.hive
                        &&& kn.spec_folded_name() == Some(target@)
                        &&& spec_is_subkey(*self, kn, target@)
                        &&& spec_has_subkey(*self, target@)
                    },
                    Err(_) => false,
                },
            },
    {
        let ghost wf_input = spec_subkeys_searchable(*self);
        let list_offset = read_le32(self.hive.bytes, self.header_start + NK_SUBKEYS_LIST_OFFSET);
        if list_offset == NO_OFFSET {
            return None;
        }
        let header = match parse_subkeys_list(&self.hive, list_offset, true) {
            Ok(h) => h,
            Err(e) => {
                proof {
                    if wf_input {
                        assert(false);
                    }
                }
                return Some(Err(e));
            },
        };
        match header {
            SubkeysListHeader::Leaf { leaf_type, count, items_start, body_end } => {
                let items = match LeafItemRanges::new(
                    count,
                    items_start - 2,
                    items_start,
                    body_end,
                    leaf_type,
                ) {
                    Ok(it) => it,
                    Err(e) => {
                        proof {
                            if wf_input {
                                reveal(spec_leaf_items_of_list);
                                assert(false);
                            }
                        }
                        return Some(Err(e));
                    },
                };
                proof {
                    reveal(spec_leaf_items_of_list);
                    assert(items == spec_leaf_items_of_list(self.hive@, list_offset as int));
                }
                let r = binary_search_subkey_in_leaf(self.hive, &items, target);
                proof {
                    if wf_input {
                        match &r {
                            Some(res) => match res {
                                Ok(kn) => {
                                    reveal(spec_nk_folded);
                                },
                                Err(_) => {},
                            },
                            None => {},
                        }
                    }
                }
                r
            },
            SubkeysListHeader::IndexRoot { count, items_start, body_end } => {
                let ri = match IndexRootItemRanges::new(
                    count,
                    items_start - 2,
                    items_start,
                    body_end,
                ) {
                    Ok(it) => it,
                    Err(e) => {
                        proof {
                            if wf_input {
                                assert(false);
                            }
                        }
                        return Some(Err(e));
                    },
                };
                proof {
                    assert(ri == spec_ri_items_of_list(self.hive@, list_offset as int));
                }
                let r = binary_search_subkey_in_index_root(self.hive, &ri, target);
                proof {
                    if wf_input {
                        match &r {
                            Some(res) => match res {
                                Ok(kn) => {
                                    reveal(spec_nk_folded);
                                },
                                Err(_) => {},
                            },
                            None => {},
                        }
                    }
                }
                r
            },
        }
    }
}

/// The path components accumulated by scanning `rest` with the partial
/// component `cur` in hand: components are separated by backslashes, and
/// empty components are skipped.
pub open spec fn spec_components_with(cur: Seq<char>, rest: Seq<char>) -> Seq<Seq<char>>
    decreases rest.len(),
{
    if rest.len() == 0 {
        if cur.len() == 0 {
            Seq::empty()
        } else {
            seq![cur]
        }
    } else if rest[0] == '\\' {
        let done = if cur.len() == 0 {
            Seq::<Seq<char>>::empty()
        } else {
            seq![cur]
        };
        done + spec_components_with(Seq::empty(), rest.drop_first())
    } else {
        spec_components_with(cur.push(rest[0]), rest.drop_first())
    }
}

/// The non-empty components of a `\`-separated path: leading, trailing, and
/// duplicate separators are skipped, because key names cannot be empty.
pub open spec fn spec_components(path: Seq<char>) -> Seq<Seq<char>> {
    spec_components_with(Seq::empty(), path)
}

/// Subpath tolerance: a leading separator does not change a path's
/// components.
pub proof fn lemma_components_leading_separator(p: Seq<char>)
    ensures
        spec_components(seq!['\\'] + p) == spec_components(p),
{
    assert((seq!['\\'] + p).drop_first() =~= p);
    assert(Seq::<Seq<char>>::empty() + spec_components_with(Seq::empty(), p)
        =~= spec_components_with(Seq::empty(), p));
}

/// Helper for separator tolerance: a trailing separator never changes the
/// scanned components, whatever partial component is in hand.
proof fn lemma_cwp_trailing(cur: Seq<char>, rest: Seq<char>)
    ensures
        spec_components_with(cur, rest + seq!['\\']) == spec_components_with(cur, rest),
    decreases rest.len(),
{
    if rest.len() == 0 {
        assert(rest + seq!['\\'] =~= seq!['\\']);
        assert((seq!['\\']).drop_first() =~= Seq::<char>::empty());
        let done = if cur.len() == 0 {
            Seq::<Seq<char>>::empty()
        } else {
            seq![cur]
        };
        assert(spec_components_with(Seq::empty(), Seq::<char>::empty()) == Seq::<Seq<char>>::empty());
        assert(spec_components_with(cur, seq!['\\']) == done + Seq::<Seq<char>>::empty());
        assert(done + Seq::<Seq<char>>::empty() =~= done);
        assert(spec_components_with(cur, rest) == done);
    } else {
        assert((rest + seq!['\\'])[0] == rest[0]);
        assert((rest + seq!['\\']).drop_first() =~= rest.drop_first() + seq!['\\']);
        if rest[0] == '\\' {
            lemma_cwp_trailing(Seq::empty(), rest.drop_first());
        } else {
            lemma_cwp_trailing(cur.push(rest[0]), rest.drop_first());
        }
    }
}

/// Subpath tolerance: a trailing separator does not change a path's
/// components.
pub proof fn lemma_components_trailing_separator(p: Seq<char>)
    ensures
        spec_components(p + seq!['\\']) == spec_components(p),
{
    lemma_cwp_trailing(Seq::empty(), p);
}

/// Helper for separator tolerance: doubling a separator never changes the
/// scanned components, whatever partial component is in hand.
proof fn lemma_cwp_double(cur: Seq<char>, p1: Seq<char>, p2: Seq<char>)
    ensures
        spec_components_with(cur, p1 + seq!['\\', '\\'] + p2) == spec_components_with(
            cur,
            p1 + seq!['\\'] + p2,
        ),
    decreases p1.len(),
{
    if p1.len() == 0 {
        let lhs = p1 + seq!['\\', '\\'] + p2;
        let rhs = p1 + seq!['\\'] + p2;
        assert(lhs =~= seq!['\\'] + (seq!['\\'] + p2));
        assert(rhs =~= seq!['\\'] + p2);
        assert(lhs[0] == '\\');
        assert(rhs[0] == '\\');
        assert(lhs.drop_first() =~= seq!['\\'] + p2);
        assert(rhs.drop_first() =~= p2);
        lemma_components_leading_separator(p2);
        let done = if cur.len() == 0 {
            Seq::<Seq<char>>::empty()
        } else {
            seq![cur]
        };
        assert(spec_components_with(cur, lhs) == done + spec_components_with(
            Seq::empty(),
            seq!['\\'] + p2,
        ));
        assert(spec_components_with(cur, rhs) == done + spec_components_with(Seq::empty(), p2));
    } else {
        let lhs = p1 + seq!['\\', '\\'] + p2;
        let rhs = p1 + seq!['\\'] + p2;
        assert(lhs[0] == p1[0]);
        assert(rhs[0] == p1[0]);
        assert(lhs.drop_first() =~= p1.drop_first() + seq!['\\', '\\'] + p2);
        assert(rhs.drop_first() =~= p1.drop_first() + seq!['\\'] + p2);
        if p1[0] == '\\' {
            lemma_cwp_double(Seq::empty(), p1.drop_first(), p2);
        } else {
            lemma_cwp_double(cur.push(p1[0]), p1.drop_first(), p2);
        }
    }
}

/// Subpath tolerance: a duplicate separator does not change a path's
/// components.
pub proof fn lemma_components_duplicate_separator(p1: Seq<char>, p2: Seq<char>)
    ensures
        spec_components(p1 + seq!['\\', '\\'] + p2) == spec_components(p1 + seq!['\\'] + p2),
{
    lemma_cwp_double(Seq::empty(), p1, p2);
}

/// Splits a path into its non-empty components.
fn split_components(path: &str) -> (r: Vec<Vec<char>>)
    ensures
        r@.map_values(|c: Vec<char>| c@) == spec_components(path@),
        forall|i: int| 0 <= i < r@.len() ==> (#[trigger] r@[i])@.len() > 0,
{
    let cs = crate::encoding::str_to_chars(path);
    let len = cs.len();
    let mut done: Vec<Vec<char>> = Vec::new();
    let mut cur: Vec<char> = Vec::new();
    let mut i: usize = 0;
    proof {
        assert(cs@.skip(0) =~= cs@);
    }
    while i < len
        invariant
            i <= len,
            len == cs@.len(),
            cs@ == path@,
            spec_components(path@) == done@.map_values(|c: Vec<char>| c@)
                + spec_components_with(cur@, cs@.skip(i as int)),
            forall|j: int| 0 <= j < done@.len() ==> (#[trigger] done@[j])@.len() > 0,
        decreases len - i,
    {
        let ghost prev_done = done@;
        let ghost prev_cur = cur@;
        let c = cs[i];
        proof {
            assert(cs@.skip(i as int)[0] == c);
            assert(cs@.skip(i as int).drop_first() =~= cs@.skip(i as int + 1));
        }
        if c == '\\' {
            proof {
                assert(spec_components_with(prev_cur, cs@.skip(i as int)) == (if prev_cur.len()
                    == 0 {
                    Seq::<Seq<char>>::empty()
                } else {
                    seq![prev_cur]
                }) + spec_components_with(Seq::empty(), cs@.skip(i as int + 1)));
            }
            if cur.len() > 0 {
                done.push(cur);
                cur = Vec::new();
                proof {
                    assert(done@.map_values(|c: Vec<char>| c@) =~= prev_done.map_values(
                        |c: Vec<char>| c@,
                    ) + seq![prev_cur]);
                    assert(prev_done.map_values(|c: Vec<char>| c@) + (seq![prev_cur]
                        + spec_components_with(Seq::empty(), cs@.skip(i as int + 1)))
                        =~= done@.map_values(|c: Vec<char>| c@) + spec_components_with(
                        Seq::empty(),
                        cs@.skip(i as int + 1),
                    ));
                    assert(cur@ =~= Seq::<char>::empty());
                    assert(spec_components(path@) == done@.map_values(|c: Vec<char>| c@)
                        + spec_components_with(cur@, cs@.skip(i as int + 1)));
                }
            } else {
                proof {
                    assert(Seq::<Seq<char>>::empty() + spec_components_with(
                        Seq::empty(),
                        cs@.skip(i as int + 1),
                    ) =~= spec_components_with(Seq::empty(), cs@.skip(i as int + 1)));
                    assert(cur@ =~= Seq::<char>::empty());
                    assert(spec_components(path@) == done@.map_values(|c: Vec<char>| c@)
                        + spec_components_with(cur@, cs@.skip(i as int + 1)));
                }
            }
        } else {
            cur.push(c);
            proof {
                assert(cur@ == prev_cur.push(c));
                assert(spec_components_with(prev_cur, cs@.skip(i as int))
                    == spec_components_with(cur@, cs@.skip(i as int + 1)));
                assert(spec_components(path@) == done@.map_values(|c: Vec<char>| c@)
                    + spec_components_with(cur@, cs@.skip(i as int + 1)));
            }
        }
        i = i + 1;
    }
    proof {
        assert(cs@.skip(len as int) =~= Seq::<char>::empty());
    }
    if cur.len() > 0 {
        let ghost prev_done = done@;
        done.push(cur);
        proof {
            assert(done@.map_values(|c: Vec<char>| c@) =~= prev_done.map_values(|c: Vec<char>| c@)
                + seq![cur@]);
        }
    } else {
        proof {
            assert(done@.map_values(|c: Vec<char>| c@) + Seq::<Seq<char>>::empty() =~= done@
                .map_values(|c: Vec<char>| c@));
        }
    }
    done
}

impl<'a> KeyNode<'a> {
    /// Traverses the given subpath and returns the key node of the last path
    /// element.
    ///
    /// Path elements must be separated by backslashes; leading, trailing and
    /// duplicate separators are skipped, so the traversal is governed by the
    /// path's non-empty components alone (see [`spec_components`] and the
    /// separator-tolerance laws beside it): on searchable containers the
    /// result equals chaining the single-name lookup over those components
    /// ([`spec_subpath_chain`]), so paths with equal components reach the
    /// same node. A path without components yields this key itself.
    pub fn subpath(&self, path: &str) -> (r: Option<Result<KeyNode<'a>, NtHiveError>>)
        requires
            self.wf(),
        ensures
            spec_components(path@).len() == 0 ==> r == Some(Ok::<KeyNode<'a>, NtHiveError>(*self)),
            match r {
                Some(res) => match res {
                    Ok(kn) => kn.wf() && kn.hive == self.hive,
                    Err(_) => true,
                },
                None => true,
            },
            spec_subpath_searchable(*self, spec_components(path@)) ==> match r {
                Some(res) => match res {
                    Ok(kn) => Some(kn) == spec_subpath_chain(*self, spec_components(path@)),
                    Err(_) => false,
                },
                None => spec_subpath_chain(*self, spec_components(path@)) is None,
            },
    {
        let ghost full = spec_components(path@);
        let ghost wf_input = spec_subpath_searchable(*self, full);
        let comps = split_components(path);
        let mut current: KeyNode<'a> = *self;
        let mut i: usize = 0;
        let len = comps.len();
        proof {
            assert(full.skip(0) =~= full);
        }
        while i < len
            invariant
                i <= len,
                len == comps@.len(),
                comps@.map_values(|c: Vec<char>| c@) == full,
                full == spec_components(path@),
                wf_input == spec_subpath_searchable(*self, full),
                self.wf(),
                current.wf(),
                current.hive == self.hive,
                i == 0 ==> current == *self,
                wf_input ==> spec_subpath_searchable(current, full.skip(i as int)),
                wf_input ==> spec_subpath_chain(*self, full) == spec_subpath_chain(
                    current,
                    full.skip(i as int),
                ),
            decreases len - i,
        {
            let ghost rest = full.skip(i as int);
            proof {
                assert(comps@.map_values(|c: Vec<char>| c@)[i as int] == comps@[i as int]@);
                assert(rest[0] == full[i as int]);
                assert(rest.drop_first() =~= full.skip(i as int + 1));
            }
            let folded = fold_chars(&comps[i]);
            let ghost prev = current;
            current = match current.subkey_folded(&folded) {
                Some(res) => match res {
                    Ok(kn) => {
                        proof {
                            if wf_input {
                                assert(spec_subkeys_searchable(prev));
                                assert(spec_is_subkey(prev, kn, spec_fold(rest[0])));
                                assert(spec_has_subkey(prev, spec_fold(rest[0])));
                                lemma_subkey_node_is(prev, spec_fold(rest[0]));
                                lemma_subkey_unique(
                                    prev,
                                    kn,
                                    spec_subkey_node(prev, spec_fold(rest[0])),
                                    spec_fold(rest[0]),
                                );
                                assert(spec_subpath_chain(prev, rest) == spec_subpath_chain(
                                    kn,
                                    rest.drop_first(),
                                ));
                            }
                        }
                        kn
                    },
                    Err(e) => {
                        proof {
                            if wf_input {
                                assert(spec_subkeys_searchable(prev));
                                assert(false);
                            }
                        }
                        return Some(Err(e));
                    },
                },
                None => {
                    proof {
                        if wf_input {
                            assert(spec_subkeys_searchable(prev));
                            assert(!spec_has_subkey(prev, spec_fold(rest[0])));
                            assert(spec_subpath_chain(prev, rest) is None);
                        }
                    }
                    return None;
                },
            };
            i = i + 1;
        }
        proof {
            assert(full.skip(len as int) =~= Seq::<Seq<char>>::empty());
        }
        Some(Ok(current))
    }
}

/// The decoded name of the key value referenced by data offset `off`:
/// `None` when no key value lies there or its name cannot be decoded.
#[verifier::opaque]
pub open spec fn spec_vk_name(hive: Hive, off: int) -> Option<Seq<char>> {
    if crate::key_value::spec_vk_ok(hive@, off) {
        crate::key_value::KeyValue::spec_at(hive, off).spec_name_chars()
    } else {
        None
    }
}

impl<'a> KeyNode<'a> {
    /// True when this key's values list (if any) is well-formed for name
    /// lookup: the list resolves, its items fit, and every referenced key
    /// value has a decodable name.
    pub open spec fn spec_values_searchable(self) -> bool {
        let b = self.hive@;
        let lo = self.spec_values_list_offset() as int;
        self.spec_values_list_offset() != NO_OFFSET ==> {
            &&& spec_cell_ok(b, lo)
            &&& spec_cell_body_start(lo) + self.spec_values_count() * 4 <= spec_cell_body_end(b, lo)
            &&& forall|i: int|
                0 <= i < self.spec_values_count() ==> (#[trigger] spec_vk_name(
                    self.hive,
                    spec_le32(b, spec_cell_body_start(lo) + 4 * i) as int,
                )) is Some
        }
    }

    /// The offset stored in item `i` of this key's values list.
    pub open spec fn spec_value_offset(self, i: int) -> u32 {
        spec_le32(
            self.hive@,
            spec_cell_body_start(self.spec_values_list_offset() as int) + 4 * i,
        )
    }

    /// Returns an iterator over the values of this key, or `None` when it
    /// has none.
    pub fn values(&self) -> (r: Option<Result<crate::key_values_list::KeyValues<'a>, NtHiveError>>)
        requires
            self.wf(),
        ensures
            match r {
                None => self.spec_values_list_offset() == NO_OFFSET,
                Some(res) => {
                    &&& self.spec_values_list_offset() != NO_OFFSET
                    &&& match res {
                        Ok(it) => {
                            &&& it.wf()
                            &&& it.hive == self.hive
                            &&& it.items_start == spec_cell_body_start(
                                self.spec_values_list_offset() as int,
                            )
                            &&& it.count == self.spec_values_count()
                            &&& it.index == 0
                            &&& spec_cell_ok(self.hive@, self.spec_values_list_offset() as int)
                            &&& spec_cell_body_start(self.spec_values_list_offset() as int)
                                + self.spec_values_count() * 4 <= spec_cell_body_end(
                                self.hive@,
                                self.spec_values_list_offset() as int,
                            )
                        },
                        Err(_) => !(spec_cell_ok(self.hive@, self.spec_values_list_offset() as int)
                            && spec_cell_body_start(self.spec_values_list_offset() as int)
                            + self.spec_values_count() * 4 <= spec_cell_body_end(
                            self.hive@,
                            self.spec_values_list_offset() as int,
                        )),
                    }
                },
            },
    {
        let list_offset = read_le32(
            self.hive.bytes,
            self.header_start + NK_KEY_VALUES_LIST_OFFSET,
        );
        if list_offset == NO_OFFSET {
            return None;
        }
        let cell_range = match self.hive.cell_range_from_data_offset(list_offset) {
            Ok(rg) => rg,
            Err(e) => {
                return Some(Err(e));
            },
        };
        let count = read_le32(self.hive.bytes, self.header_start + NK_KEY_VALUES_COUNT);
        let byte_count = (count as u64) * 4;
        if byte_count > (cell_range.end - cell_range.start) as u64 {
            return Some(
                Err(
                    NtHiveError::InvalidSizeField {
                        offset: self.header_start + NK_KEY_VALUES_COUNT,
                        expected: byte_count as usize,
                        actual: cell_range.end - cell_range.start,
                    },
                ),
            );
        }
        Some(
            Ok(
                crate::key_values_list::KeyValues {
                    hive: self.hive,
                    items_start: cell_range.start,
                    count,
                    index: 0,
                },
            ),
        )
    }

    /// Finds a single value by name, comparing code points exactly.
    ///
    /// Values are not sorted, so this is a linear scan that returns the
    /// first name-equal match.
    pub fn value(&self, name: &str) -> (r: Option<
        Result<crate::key_value::KeyValue<'a>, NtHiveError>,
    >)
        requires
            self.wf(),
        ensures
            self.spec_values_list_offset() == NO_OFFSET ==> r is None,
            match r {
                Some(res) => (res matches Ok(v) ==> v.wf() && v.hive == self.hive),
                None => true,
            },
            (self.spec_values_list_offset() != NO_OFFSET && self.spec_values_searchable())
                ==> match r {
                None => forall|i: int|
                    0 <= i < self.spec_values_count() ==> (#[trigger] spec_vk_name(
                        self.hive,
                        self.spec_value_offset(i) as int,
                    )) != Some(name@),
                Some(res) => match res {
                    Ok(v) => exists|i: int|
                        {
                            &&& 0 <= i < self.spec_values_count()
                            &&& v == crate::key_value::KeyValue::spec_at(
                                self.hive,
                                (#[trigger] self.spec_value_offset(i)) as int,
                            )
                            &&& spec_vk_name(self.hive, self.spec_value_offset(i) as int) == Some(
                                name@,
                            )
                            &&& forall|j: int|
                                0 <= j < i ==> (#[trigger] spec_vk_name(
                                    self.hive,
                                    self.spec_value_offset(j) as int,
                                )) != Some(name@)
                        },
                    Err(_) => false,
                },
            },
    {
        let ghost wf_input = self.spec_values_searchable();
        let target = crate::encoding::str_to_chars(name);
        let mut it = match self.values() {
            None => {
                return None;
            },
            Some(res) => match res {
                Ok(it) => it,
                Err(e) => {
                    proof {
                        if wf_input {
                            assert(false);
                        }
                    }
                    return Some(Err(e));
                },
            },
        };
        loop
            invariant
            it.wf(),
            it.hive == self.hive,
            self.wf(),
            wf_input == self.spec_values_searchable(),
            self.spec_values_list_offset() != NO_OFFSET,
            it.items_start == spec_cell_body_start(self.spec_values_list_offset() as int),
            it.count == self.spec_values_count(),
            target@ == name@,
            wf_input ==> forall|j: int|
                0 <= j < it.index ==> (#[trigger] spec_vk_name(
                    self.hive,
                    self.spec_value_offset(j) as int,
                )) != Some(name@),
            decreases it.count - it.index,
        {
            let ghost prev_index = it.index as int;
            match it.next() {
                None => {
                    return None;
                },
                Some(res) => match res {
                    Ok(v) => {
                        proof {
                            assert(it.spec_offset(self.hive@, prev_index) == self.spec_value_offset(
                                prev_index,
                            ));
                        }
                        let s = match v.name() {
                            Ok(s) => s,
                            Err(e) => {
                                proof {
                                    if wf_input {
                                        reveal(spec_vk_name);
                                        assert(spec_vk_name(
                                            self.hive,
                                            self.spec_value_offset(prev_index) as int,
                                        ) is Some);
                                        assert(false);
                                    }
                                }
                                return Some(Err(e));
                            },
                        };
                        match s.decode() {
                            Some(cs) => {
                                if crate::string::eq_chars(&cs, &target) {
                                    proof {
                                        reveal(spec_vk_name);
                                        assert(spec_vk_name(
                                            self.hive,
                                            self.spec_value_offset(prev_index) as int,
                                        ) == Some(name@));
                                    }
                                    return Some(Ok(v));
                                }
                                proof {
                                    reveal(spec_vk_name);
                                    assert(spec_vk_name(
                                        self.hive,
                                        self.spec_value_offset(prev_index) as int,
                                    ) != Some(name@));
                                }
                            },
                            None => {
                                proof {
                                    reveal(spec_vk_name);
                                    assert(spec_vk_name(
                                        self.hive,
                                        self.spec_value_offset(prev_index) as int,
                                    ) is None);
                                }
                            },
                        }
                    },
                    Err(e) => {
                        proof {
                            if wf_input {
                                reveal(spec_vk_name);
                                assert(it.spec_offset(self.hive@, prev_index)
                                    == self.spec_value_offset(prev_index));
                                assert(spec_vk_name(
                                    self.hive,
                                    self.spec_value_offset(prev_index) as int,
                                ) is Some);
                                assert(false);
                            }
                        }
                        return Some(Err(e));
                    },
                },
            }
        }
    }
}

impl<'a> PartialEq for KeyNode<'a> {
    /// Two key nodes of the same hive are equal when they denote the same
    /// record.
    fn eq(&self, other: &KeyNode<'a>) -> (r: bool) {
        self.header_start == other.header_start && self.data_start == other.data_start
            && self.data_end == other.data_end
    }
}

impl<'a> vstd::std_specs::cmp::PartialEqSpecImpl for KeyNode<'a> {
    open spec fn obeys_eq_spec() -> bool {
        true
    }

    open spec fn eq_spec(&self, other: &KeyNode<'a>) -> bool {
        self.header_start == other.header_start && self.data_start == other.data_start
            && self.data_end == other.data_end
    }
}

/// Depth bound on recursive traversals: a deeper hive is treated as corrupt,
/// since the format is a tree and cycles indicate corruption.
pub const TRAVERSAL_DEPTH_LIMIT: u32 = 512;

/// True when byte position `p` lies in the volatile-subkey-count field of
/// some key-node record of `b`.
pub open spec fn spec_volatile_count_byte(b: Seq<u8>, p: int) -> bool {
    exists|off: int|
        #[trigger] spec_nk_ok(b, off) && spec_cell_body_start(off) + NK_VOLATILE_SUBKEY_COUNT <= p
            < spec_cell_body_start(off) + NK_VOLATILE_SUBKEY_COUNT + 4
}

/// The subkeys-list-offset field of the key node at data offset `off`.
pub open spec fn spec_nk_list_offset(b: Seq<u8>, off: int) -> u32 {
    spec_le32(b, spec_cell_body_start(off) + NK_SUBKEYS_LIST_OFFSET)
}

/// True when all four bytes of the volatile-subkey-count field of the key
/// node at data offset `off` are zero.
pub open spec fn spec_nk_volatile_zero(b: Seq<u8>, off: int) -> bool {
    forall|p: int| #![trigger b[p]]
        spec_cell_body_start(off) + NK_VOLATILE_SUBKEY_COUNT <= p < spec_cell_body_start(off)
            + NK_VOLATILE_SUBKEY_COUNT + 4 ==> b[p] == 0
}

/// True when the key-node tree rooted at data offset `off` resolves down to
/// `depth` levels: every node is a key-node record, every non-empty subkeys
/// list is well-formed, and every child offset is a real reference. This is
/// the condition under which the volatile-subkey clearing pass succeeds.
pub open spec fn spec_subtree_resolves(b: Seq<u8>, off: int, depth: nat) -> bool
    decreases depth,
{
    &&& spec_nk_ok(b, off)
    &&& (spec_nk_list_offset(b, off) != NO_OFFSET ==> {
        let lo = spec_nk_list_offset(b, off) as int;
        &&& depth > 0
        &&& crate::subkeys_list::spec_subkeys_list_wf(b, lo)
        &&& forall|j: int|
            0 <= j < crate::subkeys_list::spec_subkey_offsets(b, lo).len() ==> {
                &&& (#[trigger] crate::subkeys_list::spec_subkey_offsets(b, lo)[j]) != NO_OFFSET
                &&& spec_subtree_resolves(
                    b,
                    crate::subkeys_list::spec_subkey_offsets(b, lo)[j] as int,
                    (depth - 1) as nat,
                )
            }
    })
}

/// True when every key node in the tree rooted at data offset `off`, down to
/// `depth` levels, has a zero volatile-subkey-count field.
pub open spec fn spec_subtree_cleared(b: Seq<u8>, off: int, depth: nat) -> bool
    decreases depth,
{
    &&& spec_nk_ok(b, off)
    &&& spec_nk_volatile_zero(b, off)
    &&& (spec_nk_list_offset(b, off) != NO_OFFSET && depth > 0 ==> {
        let lo = spec_nk_list_offset(b, off) as int;
        forall|j: int|
            0 <= j < crate::subkeys_list::spec_subkey_offsets(b, lo).len()
                ==> spec_subtree_cleared(
                b,
                (#[trigger] crate::subkeys_list::spec_subkey_offsets(b, lo)[j]) as int,
                (depth - 1) as nat,
            )
    })
}

/// True when byte position `p` lies in the volatile-subkey-count field of a
/// key node belonging to the tree rooted at data offset `off`, down to
/// `depth` levels.
pub open spec fn spec_subtree_vol_byte(b: Seq<u8>, off: int, depth: nat, p: int) -> bool
    decreases depth,
{
    ||| (spec_cell_body_start(off) + NK_VOLATILE_SUBKEY_COUNT <= p < spec_cell_body_start(off)
        + NK_VOLATILE_SUBKEY_COUNT + 4)
    ||| (spec_nk_ok(b, off) && spec_nk_list_offset(b, off) != NO_OFFSET && depth > 0 && {
        let lo = spec_nk_list_offset(b, off) as int;
        exists|j: int|
            0 <= j < crate::subkeys_list::spec_subkey_offsets(b, lo).len()
                && spec_subtree_vol_byte(
                b,
                (#[trigger] crate::subkeys_list::spec_subkey_offsets(b, lo)[j]) as int,
                (depth - 1) as nat,
                p,
            )
    })
}

/// In a cleared subtree, every volatile-subkey-count byte of the subtree is
/// zero.
pub proof fn lemma_cleared_vol_zero(b: Seq<u8>, off: int, depth: nat, p: int)
    requires
        spec_subtree_cleared(b, off, depth),
        spec_subtree_vol_byte(b, off, depth, p),
    ensures
        b[p] == 0,
    decreases depth,
{
    if spec_cell_body_start(off) + NK_VOLATILE_SUBKEY_COUNT <= p < spec_cell_body_start(off)
        + NK_VOLATILE_SUBKEY_COUNT + 4 {
    } else {
        let lo = spec_nk_list_offset(b, off) as int;
        let offs = crate::subkeys_list::spec_subkey_offsets(b, lo);
        let j = choose|j: int|
            0 <= j < offs.len() && spec_subtree_vol_byte(
                b,
                (#[trigger] offs[j]) as int,
                (depth - 1) as nat,
                p,
            );
        lemma_cleared_vol_zero(b, offs[j] as int, (depth - 1) as nat, p);
    }
}

/// True when `b2` differs from `b` only at volatile-subkey-count bytes of
/// `b`, and every such byte is zero in `b2`. This is the locality law of the
/// volatile-subkey clearing pass.
pub open spec fn spec_agrees_except_volatile(b: Seq<u8>, b2: Seq<u8>) -> bool {
    &&& b2.len() == b.len()
    &&& forall|p: int| #![trigger b2[p]]
        0 <= p < b.len() && b2[p] != b[p] ==> spec_volatile_count_byte(b, p) && b2[p] == 0
}

/// True when `b` and `b2` agree, at data offset `off`, on everything the
/// clearing traversal walks: whether a key-node record lies there, its
/// subkeys-list-offset field, and the well-formedness and contents of the
/// subkeys list at that offset.
pub open spec fn spec_structure_agrees(b: Seq<u8>, b2: Seq<u8>, off: int) -> bool {
    &&& spec_nk_ok(b2, off) == spec_nk_ok(b, off)
    &&& (spec_nk_ok(b, off) ==> spec_nk_list_offset(b2, off) == spec_nk_list_offset(b, off))
    &&& crate::subkeys_list::spec_subkeys_list_wf(b2, off)
        == crate::subkeys_list::spec_subkeys_list_wf(b, off)
    &&& crate::subkeys_list::spec_subkey_offsets(b2, off)
        == crate::subkeys_list::spec_subkey_offsets(b, off)
}

/// True when zeroing any volatile-subkey-count bytes of `b` never changes
/// the structure the traversal walks: which positions hold key-node
/// records, their subkeys-list-offset fields, and the well-formedness and
/// contents of every subkeys list. A hive whose cells do not overlap
/// satisfies this; it fails only for corrupt buffers where a volatile field
/// doubles as another record's structure bytes.
pub open spec fn spec_volatile_independent(b: Seq<u8>) -> bool {
    forall|b2: Seq<u8>, off: int|
        spec_agrees_except_volatile(b, b2) ==> #[trigger] spec_structure_agrees(b, b2, off)
}

/// Partial idempotence of the volatile-subkey clearing pass: on a buffer
/// whose volatile-subkey-count fields are all zero already, any run of the
/// pass leaves every byte unchanged, since by the locality law it can only
/// zero bytes that differ. Repeating the pass after one that zeroed every
/// such field therefore yields the same bytes.
pub proof fn lemma_clear_volatile_identity(b: Seq<u8>, b2: Seq<u8>)
    requires
        spec_agrees_except_volatile(b, b2),
        forall|p: int|
            0 <= p < b.len() && #[trigger] spec_volatile_count_byte(b, p) ==> b[p] == 0,
    ensures
        b2 == b,
{
    assert forall|p: int| 0 <= p < b.len() implies b2[p] == b[p] by {
        if b2[p] != b[p] {
            assert(spec_volatile_count_byte(b, p) && b2[p] == 0);
        }
    }
    assert(b2 =~= b);
}

/// Volatile-only agreement composes, on an independent buffer.
proof fn lemma_agree_trans(b: Seq<u8>, b2: Seq<u8>, b3: Seq<u8>)
    requires
        spec_volatile_independent(b),
        spec_agrees_except_volatile(b, b2),
        spec_agrees_except_volatile(b2, b3),
    ensures
        spec_agrees_except_volatile(b, b3),
{
    assert forall|p: int| 0 <= p < b.len() && b3[p] != b[p] implies #[trigger] spec_volatile_count_byte(
        b,
        p,
    ) && b3[p] == 0 by {
        if b3[p] != b2[p] {
            assert(spec_volatile_count_byte(b2, p));
            let off = choose|off: int|
                #[trigger] spec_nk_ok(b2, off) && spec_cell_body_start(off)
                    + NK_VOLATILE_SUBKEY_COUNT <= p < spec_cell_body_start(off)
                    + NK_VOLATILE_SUBKEY_COUNT + 4;
            assert(spec_structure_agrees(b, b2, off));
            assert(spec_nk_ok(b, off));
            assert(spec_volatile_count_byte(b, p));
        } else {
            assert(b2[p] != b[p]);
            assert(spec_volatile_count_byte(b, p) && b2[p] == 0);
        }
    }
}

/// Independence carries over to every volatile-only variant of the buffer.
pub proof fn lemma_independent_transfer(b: Seq<u8>, b2: Seq<u8>)
    requires
        spec_volatile_independent(b),
        spec_agrees_except_volatile(b, b2),
    ensures
        spec_volatile_independent(b2),
{
    assert forall|b3: Seq<u8>, off: int|
        spec_agrees_except_volatile(b2, b3) implies #[trigger] spec_structure_agrees(
        b2,
        b3,
        off,
    ) by {
        lemma_agree_trans(b, b2, b3);
        assert(spec_structure_agrees(b, b3, off));
        assert(spec_structure_agrees(b, b2, off));
    }
}

/// The resolution of a subtree is unchanged by zeroing volatile fields, on
/// an independent buffer.
proof fn lemma_resolves_stable(b: Seq<u8>, b2: Seq<u8>, off: int, depth: nat)
    requires
        spec_volatile_independent(b),
        spec_agrees_except_volatile(b, b2),
    ensures
        spec_subtree_resolves(b2, off, depth) == spec_subtree_resolves(b, off, depth),
    decreases depth,
{
    assert(spec_structure_agrees(b, b2, off));
    if spec_nk_ok(b, off) {
        if spec_nk_list_offset(b, off) != NO_OFFSET {
            let lo = spec_nk_list_offset(b, off) as int;
            assert(spec_structure_agrees(b, b2, lo));
            if depth > 0 {
                let offs = crate::subkeys_list::spec_subkey_offsets(b, lo);
                assert forall|j: int| 0 <= j < offs.len() implies spec_subtree_resolves(
                    b2,
                    (#[trigger] offs[j]) as int,
                    (depth - 1) as nat,
                ) == spec_subtree_resolves(b, offs[j] as int, (depth - 1) as nat) by {
                    lemma_resolves_stable(b, b2, offs[j] as int, (depth - 1) as nat);
                }
            }
        }
    }
}

/// A cleared subtree stays cleared across further volatile-only zeroing, on
/// an independent buffer.
proof fn lemma_cleared_monotone(b0: Seq<u8>, b2: Seq<u8>, b3: Seq<u8>, off: int, depth: nat)
    requires
        spec_volatile_independent(b0),
        spec_agrees_except_volatile(b0, b2),
        spec_agrees_except_volatile(b2, b3),
        spec_subtree_cleared(b2, off, depth),
    ensures
        spec_subtree_cleared(b3, off, depth),
    decreases depth,
{
    lemma_agree_trans(b0, b2, b3);
    lemma_independent_transfer(b0, b2);
    assert(spec_structure_agrees(b2, b3, off));
    assert forall|p: int|
        spec_cell_body_start(off) + NK_VOLATILE_SUBKEY_COUNT <= p < spec_cell_body_start(off)
            + NK_VOLATILE_SUBKEY_COUNT + 4 implies #[trigger] b3[p] == 0 by {
        if b3[p] != b2[p] {
        } else {
            assert(b2[p] == 0);
        }
    }
    if spec_nk_list_offset(b2, off) != NO_OFFSET && depth > 0 {
        let lo = spec_nk_list_offset(b2, off) as int;
        assert(spec_structure_agrees(b2, b3, lo));
        let offs = crate::subkeys_list::spec_subkey_offsets(b2, lo);
        assert forall|j: int| 0 <= j < offs.len() implies spec_subtree_cleared(
            b3,
            (#[trigger] offs[j]) as int,
            (depth - 1) as nat,
        ) by {
            lemma_cleared_monotone(b0, b2, b3, offs[j] as int, (depth - 1) as nat);
        }
    }
}

/// Membership in a subtree's volatile fields is unchanged by zeroing
/// volatile fields, on an independent buffer.
proof fn lemma_vol_byte_stable(b: Seq<u8>, b2: Seq<u8>, off: int, depth: nat, p: int)
    requires
        spec_volatile_independent(b),
        spec_agrees_except_volatile(b, b2),
    ensures
        spec_subtree_vol_byte(b2, off, depth, p) == spec_subtree_vol_byte(b, off, depth, p),
    decreases depth,
{
    assert(spec_structure_agrees(b, b2, off));
    if spec_nk_ok(b, off) && spec_nk_list_offset(b, off) != NO_OFFSET && depth > 0 {
        let lo = spec_nk_list_offset(b, off) as int;
        assert(spec_structure_agrees(b, b2, lo));
        let offs = crate::subkeys_list::spec_subkey_offsets(b, lo);
        assert forall|j: int| 0 <= j < offs.len() implies spec_subtree_vol_byte(
            b2,
            (#[trigger] offs[j]) as int,
            (depth - 1) as nat,
            p,
        ) == spec_subtree_vol_byte(b, offs[j] as int, (depth - 1) as nat, p) by {
            lemma_vol_byte_stable(b, b2, offs[j] as int, (depth - 1) as nat, p);
        }
    }
}

/// Idempotence of the volatile-subkey clearing pass: a run on a buffer
/// whose tree is already cleared changes nothing, because the pass only
/// zeroes volatile-subkey-count bytes of that tree and those are zero
/// already. Together with the pass's own contract, which bounds its changes
/// to exactly such bytes and establishes the cleared state on success, a
/// second run after a successful one leaves every byte unchanged.
pub proof fn lemma_clear_volatile_idempotent(
    b1: Seq<u8>,
    b2: Seq<u8>,
    root: int,
    depth: nat,
)
    requires
        spec_subtree_cleared(b1, root, depth),
        b2.len() == b1.len(),
        forall|p: int| #![trigger b2[p]]
            0 <= p < b1.len() && b2[p] != b1[p] ==> spec_subtree_vol_byte(b1, root, depth, p)
                && b2[p] == 0,
    ensures
        b2 == b1,
{
    assert forall|p: int| 0 <= p < b1.len() implies b2[p] == b1[p] by {
        if b2[p] != b1[p] {
            lemma_cleared_vol_zero(b1, root, depth, p);
        }
    }
    assert(b2 =~= b1);
}

/// Running the volatile-subkey clearing pass twice yields the same bytes as
/// running it once. `b1` is the buffer a successful first run left behind
/// (as the pass's contract describes it), and `b2` any buffer a second run
/// can produce from `b1`; the second run cannot change a byte. The root
/// offset the second run reads is the one the first run saw, because the
/// base block holds no volatile-subkey-count byte.
pub proof fn lemma_clear_volatile_twice(b0: Seq<u8>, b1: Seq<u8>, b2: Seq<u8>, depth: nat)
    requires
        b0.len() >= crate::hive::BASE_BLOCK_SIZE,
        spec_volatile_independent(b0),
        spec_agrees_except_volatile(b0, b1),
        spec_subtree_cleared(
            b1,
            spec_le32(b0, crate::hive::BASE_ROOT_CELL_OFFSET as int) as int,
            depth,
        ),
        b2.len() == b1.len(),
        forall|p: int| #![trigger b2[p]]
            0 <= p < b1.len() && b2[p] != b1[p] ==> spec_subtree_vol_byte(
                b1,
                spec_le32(b1, crate::hive::BASE_ROOT_CELL_OFFSET as int) as int,
                depth,
                p,
            ) && b2[p] == 0,
    ensures
        b2 == b1,
{
    assert forall|p: int|
        crate::hive::BASE_ROOT_CELL_OFFSET <= p < crate::hive::BASE_ROOT_CELL_OFFSET + 4 implies b1[p]
        == b0[p] by {
        if b1[p] != b0[p] {
            assert(spec_volatile_count_byte(b0, p));
            let off = choose|off: int|
                #[trigger] spec_nk_ok(b0, off) && spec_cell_body_start(off)
                    + NK_VOLATILE_SUBKEY_COUNT <= p < spec_cell_body_start(off)
                    + NK_VOLATILE_SUBKEY_COUNT + 4;
            assert(spec_cell_body_start(off) >= crate::hive::BASE_BLOCK_SIZE
                + crate::hive::CELL_HEADER_SIZE);
            assert(false);
        }
    }
    assert(b1.subrange(
        crate::hive::BASE_ROOT_CELL_OFFSET as int,
        crate::hive::BASE_ROOT_CELL_OFFSET as int + 4,
    ) =~= b0.subrange(
        crate::hive::BASE_ROOT_CELL_OFFSET as int,
        crate::hive::BASE_ROOT_CELL_OFFSET as int + 4,
    ));
    assert(spec_le32(b1, crate::hive::BASE_ROOT_CELL_OFFSET as int) == spec_le32(
        b0,
        crate::hive::BASE_ROOT_CELL_OFFSET as int,
    ));
    lemma_clear_volatile_idempotent(
        b1,
        b2,
        spec_le32(b0, crate::hive::BASE_ROOT_CELL_OFFSET as int) as int,
        depth,
    );
}

/// Clears the volatile-subkey-count field of the key node at data offset
/// `off` and of every key node below it, in pre-order: first this node's
/// field, then each subtree, one child after another. An error aborts the
/// pass and leaves the fields already cleared at zero, so a retry is safe.
///
/// `depth` bounds the recursion; exceeding it is reported as an invalid size
/// field at the subkeys-list-offset field. On an independent buffer (see
/// [`spec_volatile_independent`]) every byte the pass changes lies in the
/// volatile-subkey-count field of a key node of this subtree and becomes
/// zero, the pass succeeds exactly when the subtree resolves, and on
/// success every key node of the subtree has a zero volatile-subkey count.
/// On failure the error of the first corrupt record met in pre-order is
/// returned; the contract pins when failure occurs and what the buffer
/// looks like afterwards, but not which error value comes back, since the
/// bytes a corrupt descendant's error reports are not stable under the
/// independence hypothesis.
pub(crate) fn clear_subkeys_rec(bytes: &mut Vec<u8>, off: u32, depth: u32) -> (r: Result<
    (),
    NtHiveError,
>)
    requires
        old(bytes)@.len() >= crate::hive::BASE_BLOCK_SIZE,
        off != NO_OFFSET,
    ensures
        final(bytes)@.len() == old(bytes)@.len(),
        spec_volatile_independent(old(bytes)@) ==> {
            &&& spec_agrees_except_volatile(old(bytes)@, final(bytes)@)
            &&& forall|p: int| #![trigger final(bytes)@[p]]
                0 <= p < old(bytes)@.len() && final(bytes)@[p] != old(bytes)@[p]
                    ==> spec_subtree_vol_byte(old(bytes)@, off as int, depth as nat, p)
            &&& (r is Ok <==> spec_subtree_resolves(old(bytes)@, off as int, depth as nat))
            &&& (r is Ok ==> spec_subtree_cleared(final(bytes)@, off as int, depth as nat))
        },
    decreases depth,
{
    let ghost b0 = bytes@;
    let ghost wf_input = spec_volatile_independent(b0);
    let n = bytes.len();
    let header_start: usize;
    let list_offset: u32;
    let child_offsets: Vec<u32>;
    {
        let hive = Hive { bytes: bytes.as_slice() };
        let kn = match KeyNode::from_data_offset(hive, off) {
            Ok(kn) => kn,
            Err(e) => {
                proof {
                    if wf_input {
                        assert(spec_agrees_except_volatile(b0, bytes@));
                        assert(!spec_subtree_resolves(b0, off as int, depth as nat));
                    }
                }
                return Err(e);
            },
        };
        header_start = kn.header_start;
        list_offset = read_le32(hive.bytes, header_start + NK_SUBKEYS_LIST_OFFSET);
        proof {
            assert(spec_nk_ok(b0, off as int));
            assert(header_start == spec_cell_body_start(off as int));
            assert(list_offset == spec_nk_list_offset(b0, off as int));
        }
        if list_offset == NO_OFFSET {
            child_offsets = Vec::new();
        } else {
            if depth == 0 {
                proof {
                    if wf_input {
                        assert(spec_agrees_except_volatile(b0, bytes@));
                        assert(!spec_subtree_resolves(b0, off as int, depth as nat));
                    }
                }
                return Err(
                    NtHiveError::InvalidSizeField {
                        offset: header_start + NK_SUBKEYS_LIST_OFFSET,
                        expected: TRAVERSAL_DEPTH_LIMIT as usize,
                        actual: TRAVERSAL_DEPTH_LIMIT as usize + 1,
                    },
                );
            }
            child_offsets = match crate::subkeys_list::collect_subkey_offsets(&hive, list_offset) {
                Ok(v) => v,
                Err(e) => {
                    proof {
                        if wf_input {
                            assert(spec_agrees_except_volatile(b0, bytes@));
                            assert(!spec_subtree_resolves(b0, off as int, depth as nat));
                        }
                    }
                    return Err(e);
                },
            };
        }
    }
    proof {
        if list_offset != NO_OFFSET {
            assert(child_offsets@ == crate::subkeys_list::spec_subkey_offsets(
                b0,
                list_offset as int,
            ));
        }
    }

    // Clear this node's volatile-subkey-count field.
    let mut k: usize = 0;
    while k < 4
        invariant
            k <= 4,
            bytes@.len() == b0.len(),
            b0.len() <= usize::MAX,
            header_start + KEY_NODE_HEADER_SIZE <= b0.len(),
            spec_nk_ok(b0, off as int),
            off != NO_OFFSET,
            header_start == spec_cell_body_start(off as int),
            forall|p: int|
                header_start + NK_VOLATILE_SUBKEY_COUNT <= p < header_start
                    + NK_VOLATILE_SUBKEY_COUNT + k ==> bytes@[p] == 0,
            forall|p: int|
                0 <= p < b0.len() && bytes@[p] != b0[p] ==> header_start
                    + NK_VOLATILE_SUBKEY_COUNT <= p < header_start + NK_VOLATILE_SUBKEY_COUNT + k
                    && bytes@[p] == 0,
        decreases 4 - k,
    {
        bytes[header_start + NK_VOLATILE_SUBKEY_COUNT + k] = 0;
        k = k + 1;
    }
    proof {
        if wf_input {
            assert forall|p: int| 0 <= p < b0.len() && bytes@[p] != b0[p] implies #[trigger] spec_volatile_count_byte(
                b0,
                p,
            ) && bytes@[p] == 0 by {
                assert(spec_nk_ok(b0, off as int));
            }
            assert(spec_agrees_except_volatile(b0, bytes@));
        }
    }

    // Recurse into the direct subkeys, in on-disk order.
    let mut i: usize = 0;
    while i < child_offsets.len()
        invariant
            i <= child_offsets@.len(),
            b0 == old(bytes)@,
            bytes@.len() == b0.len(),
            b0.len() >= crate::hive::BASE_BLOCK_SIZE,
            wf_input == spec_volatile_independent(b0),
            wf_input ==> spec_agrees_except_volatile(b0, bytes@),
            depth >= 1 || child_offsets@.len() == 0,
            off != NO_OFFSET,
            spec_nk_ok(b0, off as int),
            header_start == spec_cell_body_start(off as int),
            list_offset == spec_nk_list_offset(b0, off as int),
            list_offset == NO_OFFSET ==> child_offsets@.len() == 0,
            list_offset != NO_OFFSET ==> child_offsets@
                == crate::subkeys_list::spec_subkey_offsets(b0, list_offset as int)
                && crate::subkeys_list::spec_subkeys_list_wf(b0, list_offset as int),
            wf_input ==> forall|p: int| #![trigger bytes@[p]]
                0 <= p < b0.len() && bytes@[p] != b0[p] ==> spec_subtree_vol_byte(
                    b0,
                    off as int,
                    depth as nat,
                    p,
                ),
            wf_input ==> forall|p: int|
                header_start + NK_VOLATILE_SUBKEY_COUNT <= p < header_start
                    + NK_VOLATILE_SUBKEY_COUNT + 4 ==> bytes@[p] == 0,
            wf_input ==> forall|j: int|
                0 <= j < i ==> {
                    &&& (#[trigger] child_offsets@[j]) != NO_OFFSET
                    &&& spec_subtree_resolves(b0, child_offsets@[j] as int, (depth - 1) as nat)
                    &&& spec_subtree_cleared(bytes@, child_offsets@[j] as int, (depth - 1) as nat)
                },
        decreases child_offsets@.len() - i,
    {
        let child = child_offsets[i];
        if child == NO_OFFSET {
            proof {
                if wf_input {
                    assert(!spec_subtree_resolves(b0, off as int, depth as nat));
                }
            }
            return Err(
                NtHiveError::InvalidHeaderSize {
                    offset: crate::helpers::sat_add(
                        child as usize,
                        crate::hive::BASE_BLOCK_SIZE,
                    ),
                    expected: crate::hive::CELL_HEADER_SIZE,
                    actual: 0,
                },
            );
        }
        let ghost b_pre = bytes@;
        let res = clear_subkeys_rec(bytes, child, depth - 1);
        proof {
            if wf_input {
                lemma_independent_transfer(b0, b_pre);
                lemma_agree_trans(b0, b_pre, bytes@);
                lemma_resolves_stable(b0, b_pre, child as int, (depth - 1) as nat);
                assert forall|p: int| #![trigger bytes@[p]]
                    0 <= p < b0.len() && bytes@[p] != b0[p] implies spec_subtree_vol_byte(
                    b0,
                    off as int,
                    depth as nat,
                    p,
                ) by {
                    if bytes@[p] != b_pre[p] {
                        assert(spec_subtree_vol_byte(b_pre, child as int, (depth - 1) as nat, p));
                        lemma_vol_byte_stable(b0, b_pre, child as int, (depth - 1) as nat, p);
                        assert(spec_subtree_vol_byte(b0, child as int, (depth - 1) as nat, p));
                    }
                }
            }
        }
        match res {
            Ok(()) => (),
            Err(e) => {
                proof {
                    if wf_input {
                        assert(!spec_subtree_resolves(b0, child as int, (depth - 1) as nat));
                        assert(!spec_subtree_resolves(b0, off as int, depth as nat));
                    }
                }
                return Err(e);
            },
        }
        proof {
            if wf_input {
                assert(spec_subtree_cleared(bytes@, child as int, (depth - 1) as nat));
                assert forall|j: int| 0 <= j < i + 1 implies {
                    &&& (#[trigger] child_offsets@[j]) != NO_OFFSET
                    &&& spec_subtree_resolves(b0, child_offsets@[j] as int, (depth - 1) as nat)
                    &&& spec_subtree_cleared(bytes@, child_offsets@[j] as int, (depth - 1) as nat)
                } by {
                    if j < i {
                        lemma_cleared_monotone(
                            b0,
                            b_pre,
                            bytes@,
                            child_offsets@[j] as int,
                            (depth - 1) as nat,
                        );
                    }
                }
                assert forall|p: int|
                    header_start + NK_VOLATILE_SUBKEY_COUNT <= p < header_start
                        + NK_VOLATILE_SUBKEY_COUNT + 4 implies bytes@[p] == 0 by {
                    if bytes@[p] != b_pre[p] {
                    } else {
                        assert(b_pre[p] == 0);
                    }
                }
            }
        }
        i = i + 1;
    }
    proof {
        if wf_input {
            assert(spec_subtree_resolves(b0, off as int, depth as nat));
            let bf = bytes@;
            assert(spec_structure_agrees(b0, bf, off as int));
            assert(spec_nk_ok(bf, off as int));
            assert(spec_nk_volatile_zero(bf, off as int));
            assert(spec_nk_list_offset(bf, off as int) == list_offset);
            if list_offset != NO_OFFSET && depth > 0 {
                assert(spec_structure_agrees(b0, bf, list_offset as int));
                assert(crate::subkeys_list::spec_subkey_offsets(bf, list_offset as int)
                    == child_offsets@);
            }
            assert(spec_subtree_cleared(bf, off as int, depth as nat));
        }
    }
    Ok(())
}

/// Resolves the key node referenced by Leaf item `i` and decodes its
/// case-folded name.
pub(crate) fn leaf_node_at<'a>(hive: Hive<'a>, items: &LeafItemRanges, i: u16) -> (r: Result<
    (KeyNode<'a>, Vec<char>),
    NtHiveError,
>)
    requires
        hive.wf(),
        items.wf(hive@),
        i < items.count,
    ensures
        match r {
            Ok(p) => {
                &&& p.0.wf()
                &&& p.0 == KeyNode::spec_at(hive, items.spec_offset(hive@, i as int) as int)
                &&& spec_nk_folded(hive, items.spec_offset(hive@, i as int) as int) == Some(p.1@)
                &&& spec_leaf_folded(hive, *items, i as int) == p.1@
            },
            Err(_) => spec_nk_folded(hive, items.spec_offset(hive@, i as int) as int) is None,
        },
{
    proof {
        reveal(spec_nk_folded);
    }
    let n = hive.bytes.len();
    let item = items.item(i);
    proof {
        reveal(spec_nk_folded);
        assert(((i as int) + 1) * (items.item_size as int) == (i as int) * (items.item_size as int)
            + (items.item_size as int)) by (nonlinear_arith);
        vstd::arithmetic::mul::lemma_mul_inequality(
            i as int + 1,
            items.count as int,
            items.item_size as int,
        );
    }
    let off = item.key_node_offset(&hive);
    proof {
        assert(off == items.spec_offset(hive@, i as int));
    }
    if off == NO_OFFSET {
        return Err(
            NtHiveError::InvalidHeaderSize {
                offset: crate::helpers::sat_add(off as usize, crate::hive::BASE_BLOCK_SIZE),
                expected: crate::hive::CELL_HEADER_SIZE,
                actual: 0,
            },
        );
    }
    let kn = KeyNode::from_data_offset(hive, off)?;
    let f = kn.folded_name()?;
    Ok((kn, f))
}

/// Textbook binary search for the key whose case-folded name equals the
/// case-folded `target` among the items of one Leaf.
///
/// When every item of the Leaf resolves to a key node with a decodable name
/// and the Leaf is sorted, the search returns exactly the matching key node,
/// or `None` when no item matches.
pub(crate) fn binary_search_subkey_in_leaf<'a>(
    hive: Hive<'a>,
    items: &LeafItemRanges,
    target: &Vec<char>,
) -> (r: Option<Result<KeyNode<'a>, NtHiveError>>)
    requires
        hive.wf(),
        items.wf(hive@),
    ensures
        match r {
            Some(res) => (res matches Ok(kn) ==> kn.wf() && kn.hive == hive),
            None => true,
        },
        (spec_leaf_searchable(hive, *items) && spec_leaf_sorted(hive, *items)) ==> match r {
            None => forall|i: int|
                0 <= i < items.count ==> (#[trigger] spec_nk_folded(
                    hive,
                    items.spec_offset(hive@, i) as int,
                )) != Some(target@),
            Some(res) => match res {
                Ok(kn) => {
                    &&& kn.wf()
                    &&& exists|i: int|
                        {
                            &&& 0 <= i < items.count
                            &&& kn == KeyNode::spec_at(
                                hive,
                                (#[trigger] items.spec_offset(hive@, i)) as int,
                            )
                            &&& spec_nk_folded(hive, items.spec_offset(hive@, i) as int) == Some(
                                target@,
                            )
                        }
                },
                Err(_) => false,
            },
        },
{
    let ghost wf_input = spec_leaf_searchable(hive, *items) && spec_leaf_sorted(hive, *items);
    let n = hive.bytes.len();
    let count = items.count;
    let mut left: u16 = 0;
    let mut right: u16 = count;
    while left < right
        invariant
            hive.wf(),
            items.wf(hive@),
            n == hive@.len(),
            left <= right,
            right <= count,
            count == items.count,
            wf_input == (spec_leaf_searchable(hive, *items) && spec_leaf_sorted(hive, *items)),
            wf_input ==> forall|i: int|
                0 <= i < left ==> spec_chars_cmp(
                    #[trigger] spec_leaf_folded(hive, *items, i),
                    target@,
                ) == NameOrdering::Less,
            wf_input ==> forall|i: int|
                right <= i < count ==> spec_chars_cmp(
                    #[trigger] spec_leaf_folded(hive, *items, i),
                    target@,
                ) == NameOrdering::Greater,
        decreases right - left,
    {
        let mid = left + (right - left) / 2;
        let (kn, folded) = match leaf_node_at(hive, items, mid) {
            Ok(p) => p,
            Err(e) => {
                proof {
                    if wf_input {
                        assert(spec_nk_folded(hive, items.spec_offset(hive@, mid as int) as int)
                            is Some);
                        assert(false);
                    }
                }
                return Some(Err(e));
            },
        };
        let ghost f_mid = spec_leaf_folded(hive, *items, mid as int);
        proof {
            if wf_input {
                assert(f_mid == folded@);
            }
        }
        match cmp_chars(&folded, target) {
            NameOrdering::Equal => {
                proof {
                    lemma_chars_cmp_eq(folded@, target@);
                    assert(folded@ == target@);
                    if wf_input {
                        assert(spec_nk_folded(hive, items.spec_offset(hive@, mid as int) as int)
                            == Some(target@));
                    }
                }
                return Some(Ok(kn));
            },
            NameOrdering::Less => {
                proof {
                    if wf_input {
                        assert forall|i: int| 0 <= i < mid + 1 implies spec_chars_cmp(
                            #[trigger] spec_leaf_folded(hive, *items, i),
                            target@,
                        ) == NameOrdering::Less by {
                            if i == mid {
                            } else if i >= left {
                                assert(spec_chars_cmp(
                                    spec_leaf_folded(hive, *items, i),
                                    spec_leaf_folded(hive, *items, mid as int),
                                ) == NameOrdering::Less);
                                lemma_chars_cmp_trans(
                                    spec_leaf_folded(hive, *items, i),
                                    f_mid,
                                    target@,
                                );
                            }
                        }
                    }
                }
                left = mid + 1;
            },
            NameOrdering::Greater => {
                proof {
                    if wf_input {
                        assert forall|i: int| mid <= i < count implies spec_chars_cmp(
                            #[trigger] spec_leaf_folded(hive, *items, i),
                            target@,
                        ) == NameOrdering::Greater by {
                            if i != mid {
                                assert(spec_chars_cmp(
                                    spec_leaf_folded(hive, *items, mid as int),
                                    spec_leaf_folded(hive, *items, i),
                                ) == NameOrdering::Less);
                                lemma_chars_cmp_flip(target@, f_mid);
                                lemma_chars_cmp_trans(
                                    target@,
                                    f_mid,
                                    spec_leaf_folded(hive, *items, i),
                                );
                                lemma_chars_cmp_flip(target@, spec_leaf_folded(hive, *items, i));
                            }
                        }
                    }
                }
                right = mid;
            },
        }
    }
    proof {
        if wf_input {
            assert forall|i: int| 0 <= i < items.count implies (#[trigger] spec_nk_folded(
                hive,
                items.spec_offset(hive@, i) as int,
            )) != Some(target@) by {
                if spec_nk_folded(hive, items.spec_offset(hive@, i) as int) == Some(target@) {
                    assert(spec_leaf_folded(hive, *items, i) == target@);
                    lemma_chars_cmp_eq(target@, target@);
                    assert(spec_chars_cmp(spec_leaf_folded(hive, *items, i), target@)
                        == NameOrdering::Equal);
                }
            }
        }
    }
    None
}

/// The item table of the Leaf referenced by Index Root item `k`.
pub open spec fn spec_ri_leaf_at(hive: Hive, ri: IndexRootItemRanges, k: int) -> LeafItemRanges {
    spec_leaf_items_of_list(hive@, ri.spec_offset(hive@, k) as int)
}

/// True when every Index Root item references a well-formed, non-empty Leaf
/// that is itself searchable and sorted.
pub open spec fn spec_ri_searchable(hive: Hive, ri: IndexRootItemRanges) -> bool {
    forall|k: int|
        0 <= k < ri.count ==> {
            let lo = (#[trigger] ri.spec_offset(hive@, k)) as int;
            &&& spec_ri_leaf_ok(hive@, lo)
            &&& spec_leaf_items_of_list(hive@, lo).wf(hive@)
            &&& spec_leaf_items_of_list(hive@, lo).count >= 1
            &&& spec_leaf_searchable(hive, spec_leaf_items_of_list(hive@, lo))
            &&& spec_leaf_sorted(hive, spec_leaf_items_of_list(hive@, lo))
        }
}

/// True when the Leafs referenced by adjacent Index Root items are ordered:
/// the last name of one lies below the first name of the next.
pub open spec fn spec_ri_sorted(hive: Hive, ri: IndexRootItemRanges) -> bool {
    forall|k: int, l: int|
        0 <= k && l == k + 1 && l < ri.count ==> spec_chars_cmp(
            spec_leaf_folded(
                hive,
                #[trigger] spec_ri_leaf_at(hive, ri, k),
                spec_ri_leaf_at(hive, ri, k).count - 1,
            ),
            spec_leaf_folded(hive, #[trigger] spec_ri_leaf_at(hive, ri, l), 0),
        ) == NameOrdering::Less
}

/// In a searchable, sorted Leaf an earlier item's name is at most a later
/// item's name.
proof fn lemma_leaf_le(hive: Hive, items: LeafItemRanges, i: int, j: int)
    requires
        spec_leaf_searchable(hive, items),
        spec_leaf_sorted(hive, items),
        0 <= i <= j < items.count,
    ensures
        spec_chars_cmp(spec_leaf_folded(hive, items, i), spec_leaf_folded(hive, items, j))
            == NameOrdering::Less || spec_leaf_folded(hive, items, i) == spec_leaf_folded(
            hive,
            items,
            j,
        ),
{
}

/// Under the Index Root order, the last name of Leaf `k` lies below the
/// first name of any later Leaf `l`.
#[verifier::rlimit(100)]
#[verifier::spinoff_prover]
proof fn lemma_ri_chain(hive: Hive, ri: IndexRootItemRanges, k: int, l: int)
    requires
        spec_ri_searchable(hive, ri),
        spec_ri_sorted(hive, ri),
        0 <= k < l < ri.count,
    ensures
        spec_chars_cmp(
            spec_leaf_folded(
                hive,
                spec_ri_leaf_at(hive, ri, k),
                spec_ri_leaf_at(hive, ri, k).count - 1,
            ),
            spec_leaf_folded(hive, spec_ri_leaf_at(hive, ri, l), 0),
        ) == NameOrdering::Less,
    decreases l - k,
{
    if k + 1 == l {
        assert(spec_ri_leaf_at(hive, ri, k) == spec_ri_leaf_at(hive, ri, k));
    } else {
        lemma_ri_chain(hive, ri, k, l - 1);
        let lk = spec_ri_leaf_at(hive, ri, k);
        let lm = spec_ri_leaf_at(hive, ri, l - 1);
        assert(spec_ri_leaf_ok(hive@, ri.spec_offset(hive@, l - 1) as int));
        lemma_leaf_le(hive, lm, 0, lm.count - 1);
        lemma_chars_cmp_lt_le(
            spec_leaf_folded(hive, lk, lk.count - 1),
            spec_leaf_folded(hive, lm, 0),
            spec_leaf_folded(hive, lm, lm.count - 1),
        );
        assert(spec_chars_cmp(
            spec_leaf_folded(hive, lm, lm.count - 1),
            spec_leaf_folded(hive, spec_ri_leaf_at(hive, ri, l), 0),
        ) == NameOrdering::Less);
        lemma_chars_cmp_trans(
            spec_leaf_folded(hive, lk, lk.count - 1),
            spec_leaf_folded(hive, lm, lm.count - 1),
            spec_leaf_folded(hive, spec_ri_leaf_at(hive, ri, l), 0),
        );
    }
}

/// When the target lies below the first name of Leaf `m`, every name in
/// every Leaf from `m` on lies above the target.
proof fn lemma_ri_all_greater(hive: Hive, ri: IndexRootItemRanges, m: int, target: Seq<char>)
    requires
        spec_ri_searchable(hive, ri),
        spec_ri_sorted(hive, ri),
        0 <= m < ri.count,
        spec_chars_cmp(target, spec_leaf_folded(hive, spec_ri_leaf_at(hive, ri, m), 0))
            == NameOrdering::Less,
    ensures
        forall|k: int, i: int|
            m <= k < ri.count && 0 <= i < spec_ri_leaf_at(hive, ri, k).count ==> spec_chars_cmp(
                #[trigger] spec_leaf_folded(hive, spec_ri_leaf_at(hive, ri, k), i),
                target,
            ) == NameOrdering::Greater,
{
    assert forall|k: int, i: int|
        m <= k < ri.count && 0 <= i < spec_ri_leaf_at(hive, ri, k).count implies spec_chars_cmp(
        #[trigger] spec_leaf_folded(hive, spec_ri_leaf_at(hive, ri, k), i),
        target,
    ) == NameOrdering::Greater by {
        assert(spec_ri_leaf_ok(hive@, ri.spec_offset(hive@, k) as int));
        let lk = spec_ri_leaf_at(hive, ri, k);
        lemma_leaf_le(hive, lk, 0, i);
        if k == m {
            lemma_chars_cmp_lt_le(
                target,
                spec_leaf_folded(hive, lk, 0),
                spec_leaf_folded(hive, lk, i),
            );
        } else {
            assert(spec_ri_leaf_ok(hive@, ri.spec_offset(hive@, m) as int));
            let lmf = spec_ri_leaf_at(hive, ri, m);
            lemma_ri_chain(hive, ri, m, k);
            lemma_leaf_le(hive, lmf, 0, lmf.count - 1);
            lemma_chars_cmp_lt_le(
                target,
                spec_leaf_folded(hive, lmf, 0),
                spec_leaf_folded(hive, lmf, lmf.count - 1),
            );
            lemma_chars_cmp_trans(
                target,
                spec_leaf_folded(hive, lmf, lmf.count - 1),
                spec_leaf_folded(hive, lk, 0),
            );
            lemma_chars_cmp_lt_le(
                target,
                spec_leaf_folded(hive, lk, 0),
                spec_leaf_folded(hive, lk, i),
            );
        }
        lemma_chars_cmp_flip(target, spec_leaf_folded(hive, lk, i));
    }
}

/// When the last name of Leaf `m` lies below the target, every name in every
/// Leaf up to `m` lies below the target.
proof fn lemma_ri_all_less(hive: Hive, ri: IndexRootItemRanges, m: int, target: Seq<char>)
    requires
        spec_ri_searchable(hive, ri),
        spec_ri_sorted(hive, ri),
        0 <= m < ri.count,
        spec_chars_cmp(
            spec_leaf_folded(hive, spec_ri_leaf_at(hive, ri, m), spec_ri_leaf_at(hive, ri, m).count
                - 1),
            target,
        ) == NameOrdering::Less,
    ensures
        forall|k: int, i: int|
            0 <= k <= m && 0 <= i < spec_ri_leaf_at(hive, ri, k).count ==> spec_chars_cmp(
                #[trigger] spec_leaf_folded(hive, spec_ri_leaf_at(hive, ri, k), i),
                target,
            ) == NameOrdering::Less,
{
    assert forall|k: int, i: int|
        0 <= k <= m && 0 <= i < spec_ri_leaf_at(hive, ri, k).count implies spec_chars_cmp(
        #[trigger] spec_leaf_folded(hive, spec_ri_leaf_at(hive, ri, k), i),
        target,
    ) == NameOrdering::Less by {
        assert(spec_ri_leaf_ok(hive@, ri.spec_offset(hive@, k) as int));
        let lk = spec_ri_leaf_at(hive, ri, k);
        lemma_leaf_le(hive, lk, i, lk.count - 1);
        if k == m {
            lemma_chars_cmp_le_lt(
                spec_leaf_folded(hive, lk, i),
                spec_leaf_folded(hive, lk, lk.count - 1),
                target,
            );
        } else {
            assert(spec_ri_leaf_ok(hive@, ri.spec_offset(hive@, m) as int));
            let lmf = spec_ri_leaf_at(hive, ri, m);
            lemma_ri_chain(hive, ri, k, m);
            lemma_leaf_le(hive, lmf, 0, lmf.count - 1);
            lemma_chars_cmp_le_lt(
                spec_leaf_folded(hive, lk, i),
                spec_leaf_folded(hive, lk, lk.count - 1),
                spec_leaf_folded(hive, lmf, 0),
            );
            lemma_chars_cmp_lt_le(
                spec_leaf_folded(hive, lk, i),
                spec_leaf_folded(hive, lmf, 0),
                spec_leaf_folded(hive, lmf, lmf.count - 1),
            );
            lemma_chars_cmp_trans(
                spec_leaf_folded(hive, lk, i),
                spec_leaf_folded(hive, lmf, lmf.count - 1),
                target,
            );
        }
    }
}

/// Iteration order law: walking the Leafs of a searchable, sorted Index
/// Root one after another yields key names in strictly increasing
/// case-folded order. The subkey iterator enumerates exactly these `(k, i)`
/// positions in lexicographic order, so the stored iteration order equals
/// the name order.
pub proof fn lemma_subkeys_iteration_order(
    hive: Hive,
    ri: IndexRootItemRanges,
    k1: int,
    i1: int,
    k2: int,
    i2: int,
)
    requires
        spec_ri_searchable(hive, ri),
        spec_ri_sorted(hive, ri),
        0 <= k1 < ri.count,
        0 <= k2 < ri.count,
        0 <= i1 < spec_ri_leaf_at(hive, ri, k1).count,
        0 <= i2 < spec_ri_leaf_at(hive, ri, k2).count,
        k1 < k2 || (k1 == k2 && i1 < i2),
    ensures
        spec_chars_cmp(
            spec_leaf_folded(hive, spec_ri_leaf_at(hive, ri, k1), i1),
            spec_leaf_folded(hive, spec_ri_leaf_at(hive, ri, k2), i2),
        ) == NameOrdering::Less,
{
    assert(spec_ri_leaf_ok(hive@, ri.spec_offset(hive@, k1) as int));
    assert(spec_ri_leaf_ok(hive@, ri.spec_offset(hive@, k2) as int));
    let l1 = spec_ri_leaf_at(hive, ri, k1);
    let l2 = spec_ri_leaf_at(hive, ri, k2);
    if k1 == k2 {
        assert(spec_chars_cmp(spec_leaf_folded(hive, l1, i1), spec_leaf_folded(hive, l1, i2))
            == NameOrdering::Less);
    } else {
        lemma_leaf_le(hive, l1, i1, l1.count - 1);
        lemma_ri_chain(hive, ri, k1, k2);
        lemma_leaf_le(hive, l2, 0, i2);
        lemma_chars_cmp_le_lt(
            spec_leaf_folded(hive, l1, i1),
            spec_leaf_folded(hive, l1, l1.count - 1),
            spec_leaf_folded(hive, l2, 0),
        );
        lemma_chars_cmp_lt_le(
            spec_leaf_folded(hive, l1, i1),
            spec_leaf_folded(hive, l2, 0),
            spec_leaf_folded(hive, l2, i2),
        );
    }
}

/// The case-folded name of the key node at data offset `off`, or the empty
/// sequence when there is none.
pub open spec fn spec_folded_of(hive: Hive, off: u32) -> Seq<char> {
    match spec_nk_folded(hive, off as int) {
        Some(f) => f,
        None => Seq::empty(),
    }
}

/// Every position of an Index Root's flattened offset sequence comes from
/// some Leaf item.
proof fn lemma_flat_witness(hive: Hive, ri: IndexRootItemRanges, m: int, n: int)
    requires
        spec_ri_searchable(hive, ri),
        0 <= m <= ri.count,
        0 <= n < crate::subkeys_list::spec_ri_flat_prefix(hive@, ri, m).len(),
    ensures
        exists|k: int, i: int|
            {
                &&& 0 <= k < m
                &&& 0 <= i < spec_ri_leaf_at(hive, ri, k).count
                &&& crate::subkeys_list::spec_ri_flat_prefix(hive@, ri, m)[n]
                    == (#[trigger] spec_ri_leaf_at(hive, ri, k).spec_offset(hive@, i))
            },
    decreases m,
{
    let pm1 = crate::subkeys_list::spec_ri_flat_prefix(hive@, ri, m - 1);
    if n < pm1.len() {
        lemma_flat_witness(hive, ri, m - 1, n);
    } else {
        assert(spec_ri_leaf_ok(hive@, ri.spec_offset(hive@, m - 1) as int));
        let items = spec_ri_leaf_at(hive, ri, m - 1);
        let i = n - pm1.len();
        assert(crate::subkeys_list::spec_ri_flat_prefix(hive@, ri, m)[n]
            == crate::subkeys_list::spec_leaf_offsets_seq(hive@, items)[i]);
        assert(crate::subkeys_list::spec_ri_flat_prefix(hive@, ri, m)[n] == items.spec_offset(
            hive@,
            i,
        ));
    }
}

/// Within an Index Root's flattened offset sequence, earlier positions hold
/// strictly smaller case-folded names.
proof fn lemma_flat_order(hive: Hive, ri: IndexRootItemRanges, m: int, n1: int, n2: int)
    requires
        spec_ri_searchable(hive, ri),
        spec_ri_sorted(hive, ri),
        0 <= m <= ri.count,
        0 <= n1 < n2 < crate::subkeys_list::spec_ri_flat_prefix(hive@, ri, m).len(),
    ensures
        spec_chars_cmp(
            spec_folded_of(hive, crate::subkeys_list::spec_ri_flat_prefix(hive@, ri, m)[n1]),
            spec_folded_of(hive, crate::subkeys_list::spec_ri_flat_prefix(hive@, ri, m)[n2]),
        ) == NameOrdering::Less,
    decreases m,
{
    let pm = crate::subkeys_list::spec_ri_flat_prefix(hive@, ri, m);
    let pm1 = crate::subkeys_list::spec_ri_flat_prefix(hive@, ri, m - 1);
    assert(spec_ri_leaf_ok(hive@, ri.spec_offset(hive@, m - 1) as int));
    let items = spec_ri_leaf_at(hive, ri, m - 1);
    if n2 < pm1.len() {
        lemma_flat_order(hive, ri, m - 1, n1, n2);
        assert(pm[n1] == pm1[n1]);
        assert(pm[n2] == pm1[n2]);
    } else {
        let i2 = n2 - pm1.len();
        assert(pm[n2] == items.spec_offset(hive@, i2));
        assert(spec_folded_of(hive, pm[n2]) == spec_leaf_folded(hive, items, i2));
        if n1 >= pm1.len() {
            let i1 = n1 - pm1.len();
            assert(pm[n1] == items.spec_offset(hive@, i1));
            assert(spec_folded_of(hive, pm[n1]) == spec_leaf_folded(hive, items, i1));
            lemma_subkeys_iteration_order(hive, ri, m - 1, i1, m - 1, i2);
        } else {
            lemma_flat_witness(hive, ri, m - 1, n1);
            let (k1, i1) = choose|k1: int, i1: int|
                {
                    &&& 0 <= k1 < m - 1
                    &&& 0 <= i1 < spec_ri_leaf_at(hive, ri, k1).count
                    &&& pm1[n1] == (#[trigger] spec_ri_leaf_at(hive, ri, k1).spec_offset(
                        hive@,
                        i1,
                    ))
                };
            assert(pm[n1] == pm1[n1]);
            assert(spec_folded_of(hive, pm[n1]) == spec_leaf_folded(
                hive,
                spec_ri_leaf_at(hive, ri, k1),
                i1,
            ));
            lemma_subkeys_iteration_order(hive, ri, k1, i1, m - 1, i2);
        }
    }
}

/// Iteration order law: under a searchable, sorted subkeys list, the
/// case-folded names of the children strictly increase with the iteration
/// position, so the subkey iterator yields names in the hive's stored
/// order, which equals the name order.
pub proof fn lemma_subkey_offsets_sorted(kn: KeyNode, n1: int, n2: int)
    requires
        spec_subkeys_searchable(kn),
        kn.spec_subkeys_list_offset() != NO_OFFSET,
        0 <= n1 < n2 < crate::subkeys_list::spec_subkey_offsets(
            kn.hive@,
            kn.spec_subkeys_list_offset() as int,
        ).len(),
    ensures
        spec_chars_cmp(
            spec_folded_of(
                kn.hive,
                crate::subkeys_list::spec_subkey_offsets(
                    kn.hive@,
                    kn.spec_subkeys_list_offset() as int,
                )[n1],
            ),
            spec_folded_of(
                kn.hive,
                crate::subkeys_list::spec_subkey_offsets(
                    kn.hive@,
                    kn.spec_subkeys_list_offset() as int,
                )[n2],
            ),
        ) == NameOrdering::Less,
{
    let b = kn.hive@;
    let lo = kn.spec_subkeys_list_offset() as int;
    if spec_list_is_leaf(b, lo) {
        let items = spec_leaf_items_of_list(b, lo);
        assert(crate::subkeys_list::spec_subkey_offsets(b, lo)[n1] == items.spec_offset(b, n1));
        assert(crate::subkeys_list::spec_subkey_offsets(b, lo)[n2] == items.spec_offset(b, n2));
        assert(spec_folded_of(kn.hive, items.spec_offset(b, n1)) == spec_leaf_folded(
            kn.hive,
            items,
            n1,
        ));
        assert(spec_folded_of(kn.hive, items.spec_offset(b, n2)) == spec_leaf_folded(
            kn.hive,
            items,
            n2,
        ));
    } else {
        let ri = spec_ri_items_of_list(b, lo);
        lemma_flat_order(kn.hive, ri, ri.count as int, n1, n2);
    }
}

/// Getter resolution law: under a searchable subkeys list, every child
/// offset resolves to a key-node record, so following any offset the
/// iterator yields succeeds.
pub proof fn lemma_subkey_offsets_resolve(kn: KeyNode, n: int)
    requires
        spec_subkeys_searchable(kn),
        kn.spec_subkeys_list_offset() != NO_OFFSET,
        0 <= n < crate::subkeys_list::spec_subkey_offsets(
            kn.hive@,
            kn.spec_subkeys_list_offset() as int,
        ).len(),
    ensures
        spec_nk_ok(
            kn.hive@,
            crate::subkeys_list::spec_subkey_offsets(
                kn.hive@,
                kn.spec_subkeys_list_offset() as int,
            )[n] as int,
        ),
{
    let b = kn.hive@;
    let lo = kn.spec_subkeys_list_offset() as int;
    reveal(spec_nk_folded);
    if spec_list_is_leaf(b, lo) {
        let items = spec_leaf_items_of_list(b, lo);
        assert(crate::subkeys_list::spec_subkey_offsets(b, lo)[n] == items.spec_offset(b, n));
        assert(spec_nk_folded(kn.hive, items.spec_offset(b, n) as int) is Some);
    } else {
        let ri = spec_ri_items_of_list(b, lo);
        lemma_flat_witness(kn.hive, ri, ri.count as int, n);
        let (k, i) = choose|k: int, i: int|
            {
                &&& 0 <= k < ri.count
                &&& 0 <= i < spec_ri_leaf_at(kn.hive, ri, k).count
                &&& crate::subkeys_list::spec_ri_flat_prefix(b, ri, ri.count as int)[n]
                    == (#[trigger] spec_ri_leaf_at(kn.hive, ri, k).spec_offset(b, i))
            };
        assert(spec_ri_leaf_ok(b, ri.spec_offset(b, k) as int));
        assert(spec_nk_folded(
            kn.hive,
            spec_ri_leaf_at(kn.hive, ri, k).spec_offset(b, i) as int,
        ) is Some);
    }
}

/// Binary search for the key whose case-folded name equals the case-folded
/// `target` among the Leafs referenced by an Index Root.
///
/// Each probed Index Root item is narrowed down by the first and last name
/// of its Leaf; once the target can only lie within one Leaf, the search
/// delegates to [`binary_search_subkey_in_leaf`].
#[verifier::rlimit(100)]
#[verifier::spinoff_prover]
pub(crate) fn binary_search_subkey_in_index_root<'a>(
    hive: Hive<'a>,
    ri: &IndexRootItemRanges,
    target: &Vec<char>,
) -> (r: Option<Result<KeyNode<'a>, NtHiveError>>)
    requires
        hive.wf(),
        ri.wf(hive@),
    ensures
        match r {
            Some(res) => (res matches Ok(kn) ==> kn.wf() && kn.hive == hive),
            None => true,
        },
        (spec_ri_searchable(hive, *ri) && spec_ri_sorted(hive, *ri)) ==> match r {
            None => forall|k: int, i: int|
                0 <= k < ri.count && 0 <= i < spec_ri_leaf_at(hive, *ri, k).count
                    ==> spec_nk_folded(
                    hive,
                    (#[trigger] spec_ri_leaf_at(hive, *ri, k).spec_offset(hive@, i)) as int,
                ) != Some(target@),
            Some(res) => match res {
                Ok(kn) => {
                    &&& kn.wf()
                    &&& exists|k: int, i: int|
                        {
                            &&& 0 <= k < ri.count
                            &&& 0 <= i < spec_ri_leaf_at(hive, *ri, k).count
                            &&& kn == KeyNode::spec_at(
                                hive,
                                (#[trigger] spec_ri_leaf_at(hive, *ri, k).spec_offset(
                                    hive@,
                                    i,
                                )) as int,
                            )
                            &&& spec_nk_folded(
                                hive,
                                spec_ri_leaf_at(hive, *ri, k).spec_offset(hive@, i) as int,
                            ) == Some(target@)
                        }
                },
                Err(_) => false,
            },
        },
{
    let ghost wf_input = spec_ri_searchable(hive, *ri) && spec_ri_sorted(hive, *ri);
    let n = hive.bytes.len();
    let count = ri.count;
    let mut left: u16 = 0;
    let mut right: u16 = count;
    while left < right
        invariant
            hive.wf(),
            ri.wf(hive@),
            n == hive@.len(),
            left <= right,
            right <= count,
            count == ri.count,
            wf_input == (spec_ri_searchable(hive, *ri) && spec_ri_sorted(hive, *ri)),
            wf_input ==> forall|k: int, i: int|
                0 <= k < left && 0 <= i < spec_ri_leaf_at(hive, *ri, k).count ==> spec_chars_cmp(
                    #[trigger] spec_leaf_folded(hive, spec_ri_leaf_at(hive, *ri, k), i),
                    target@,
                ) == NameOrdering::Less,
            wf_input ==> forall|k: int, i: int|
                right <= k < count && 0 <= i < spec_ri_leaf_at(hive, *ri, k).count
                    ==> spec_chars_cmp(
                    #[trigger] spec_leaf_folded(hive, spec_ri_leaf_at(hive, *ri, k), i),
                    target@,
                ) == NameOrdering::Greater,
        decreases right - left,
    {
        let mid = left + (right - left) / 2;
        let item = ri.item(mid);
        proof {
            assert(((mid as int) + 1) * 4 == (mid as int) * 4 + 4) by (nonlinear_arith);
            vstd::arithmetic::mul::lemma_mul_inequality(mid as int + 1, count as int, 4);
        }
        let leaf_items = match LeafItemRanges::from_index_root_item_range(&hive, item) {
            Ok(it) => it,
            Err(e) => {
                proof {
                    if wf_input {
                        assert(spec_ri_leaf_ok(hive@, ri.spec_offset(hive@, mid as int) as int));
                        assert(false);
                    }
                }
                return Some(Err(e));
            },
        };
        proof {
            assert(leaf_items == spec_ri_leaf_at(hive, *ri, mid as int));
        }
        let ghost lmid = spec_ri_leaf_at(hive, *ri, mid as int);

        // Probe the FIRST key node of the selected Index Root item.
        let (first_kn, first_f) = match leaf_node_at(hive, &leaf_items, 0) {
            Ok(p) => p,
            Err(e) => {
                proof {
                    if wf_input {
                        assert(spec_ri_leaf_ok(hive@, ri.spec_offset(hive@, mid as int) as int));
                        assert(spec_nk_folded(hive, lmid.spec_offset(hive@, 0) as int) is Some);
                        assert(false);
                    }
                }
                return Some(Err(e));
            },
        };
        match cmp_chars(&first_f, target) {
            NameOrdering::Equal => {
                proof {
                    lemma_chars_cmp_eq(first_f@, target@);
                    assert(spec_nk_folded(hive, spec_ri_leaf_at(hive, *ri, mid as int).spec_offset(
                        hive@,
                        0,
                    ) as int) == Some(target@));
                    if wf_input {
                        assert(spec_ri_leaf_ok(hive@, ri.spec_offset(hive@, mid as int) as int));
                        assert(0 < spec_ri_leaf_at(hive, *ri, mid as int).count);
                    }
                }
                return Some(Ok(first_kn));
            },
            NameOrdering::Greater => {
                // The first key of this Leaf already lies above the target:
                // the target can only lie in an earlier Index Root item.
                proof {
                    if wf_input {
                        lemma_chars_cmp_flip(target@, first_f@);
                        lemma_ri_all_greater(hive, *ri, mid as int, target@);
                    }
                }
                right = mid;
            },
            NameOrdering::Less => {
                // Probe the LAST key node of the selected Index Root item.
                let last_index = leaf_items.len() - 1;
                let (last_kn, last_f) = match leaf_node_at(
                    hive,
                    &leaf_items,
                    (last_index) as u16,
                ) {
                    Ok(p) => p,
                    Err(e) => {
                        proof {
                            if wf_input {
                                assert(spec_ri_leaf_ok(
                                    hive@,
                                    ri.spec_offset(hive@, mid as int) as int,
                                ));
                                assert(spec_nk_folded(
                                    hive,
                                    lmid.spec_offset(hive@, lmid.count - 1) as int,
                                ) is Some);
                                assert(false);
                            }
                        }
                        return Some(Err(e));
                    },
                };
                match cmp_chars(&last_f, target) {
                    NameOrdering::Equal => {
                        proof {
                            lemma_chars_cmp_eq(last_f@, target@);
                            if wf_input {
                                assert(spec_ri_leaf_ok(
                                    hive@,
                                    ri.spec_offset(hive@, mid as int) as int,
                                ));
                                assert(spec_nk_folded(hive, spec_ri_leaf_at(
                                    hive,
                                    *ri,
                                    mid as int,
                                ).spec_offset(hive@, lmid.count - 1) as int) == Some(target@));
                            }
                        }
                        return Some(Ok(last_kn));
                    },
                    NameOrdering::Less => {
                        // The last key of this Leaf still lies below the
                        // target: the target can only lie in a later item.
                        proof {
                            if wf_input {
                                lemma_ri_all_less(hive, *ri, mid as int, target@);
                            }
                        }
                        left = mid + 1;
                    },
                    NameOrdering::Greater => {
                        // If the target exists at all, it lies within this
                        // Leaf.
                        let r2 = binary_search_subkey_in_leaf(hive, &leaf_items, target);
                        proof {
                            if wf_input {
                                assert(spec_ri_leaf_ok(
                                    hive@,
                                    ri.spec_offset(hive@, mid as int) as int,
                                ));
                                if mid > 0 {
                                    lemma_ri_chain(hive, *ri, mid as int - 1, mid as int);
                                    lemma_chars_cmp_trans(
                                        spec_leaf_folded(
                                            hive,
                                            spec_ri_leaf_at(hive, *ri, mid as int - 1),
                                            spec_ri_leaf_at(hive, *ri, mid as int - 1).count - 1,
                                        ),
                                        first_f@,
                                        target@,
                                    );
                                    lemma_ri_all_less(hive, *ri, mid as int - 1, target@);
                                }
                                if mid as int + 1 < count {
                                    lemma_ri_chain(hive, *ri, mid as int, mid as int + 1);
                                    lemma_chars_cmp_flip(target@, last_f@);
                                    lemma_chars_cmp_trans(
                                        target@,
                                        last_f@,
                                        spec_leaf_folded(
                                            hive,
                                            spec_ri_leaf_at(hive, *ri, mid as int + 1),
                                            0,
                                        ),
                                    );
                                    lemma_ri_all_greater(hive, *ri, mid as int + 1, target@);
                                }
                                match &r2 {
                                    None => {
                                        assert forall|k: int, i: int|
                                            0 <= k < ri.count && 0 <= i < spec_ri_leaf_at(
                                                hive,
                                                *ri,
                                                k,
                                            ).count implies spec_nk_folded(
                                            hive,
                                            (#[trigger] spec_ri_leaf_at(hive, *ri, k).spec_offset(
                                                hive@,
                                                i,
                                            )) as int,
                                        ) != Some(target@) by {
                                            if spec_nk_folded(
                                                hive,
                                                spec_ri_leaf_at(hive, *ri, k).spec_offset(
                                                    hive@,
                                                    i,
                                                ) as int,
                                            ) == Some(target@) {
                                                assert(spec_leaf_folded(
                                                    hive,
                                                    spec_ri_leaf_at(hive, *ri, k),
                                                    i,
                                                ) == target@);
                                                lemma_chars_cmp_eq(target@, target@);
                                                if k < mid as int {
                                                } else if k > mid as int {
                                                } else {
                                                }
                                            }
                                        }
                                    },
                                    Some(res2) => match res2 {
                                        Ok(kn2) => {
                                            let kn2 = *kn2;
                                            assert(exists|i: int|
                                                {
                                                    &&& 0 <= i < lmid.count
                                                    &&& kn2 == KeyNode::spec_at(
                                                        hive,
                                                        (#[trigger] lmid.spec_offset(
                                                            hive@,
                                                            i,
                                                        )) as int,
                                                    )
                                                    &&& spec_nk_folded(
                                                        hive,
                                                        lmid.spec_offset(hive@, i) as int,
                                                    ) == Some(target@)
                                                });
                                            let wi = choose|i: int|
                                                {
                                                    &&& 0 <= i < lmid.count
                                                    &&& kn2 == KeyNode::spec_at(
                                                        hive,
                                                        (#[trigger] lmid.spec_offset(
                                                            hive@,
                                                            i,
                                                        )) as int,
                                                    )
                                                    &&& spec_nk_folded(
                                                        hive,
                                                        lmid.spec_offset(hive@, i) as int,
                                                    ) == Some(target@)
                                                };
                                            assert(spec_ri_leaf_at(hive, *ri, mid as int)
                                                .spec_offset(hive@, wi) == lmid.spec_offset(
                                                hive@,
                                                wi,
                                            ));
                                        },
                                        Err(_) => {
                                            assert(false);
                                        },
                                    },
                                }
                            }
                        }
                        return r2;
                    },
                }
            },
        }
    }
    proof {
        if wf_input {
            assert forall|k: int, i: int|
                0 <= k < ri.count && 0 <= i < spec_ri_leaf_at(hive, *ri, k).count
                    implies spec_nk_folded(
                hive,
                (#[trigger] spec_ri_leaf_at(hive, *ri, k).spec_offset(hive@, i)) as int,
            ) != Some(target@) by {
                if spec_nk_folded(hive, spec_ri_leaf_at(hive, *ri, k).spec_offset(hive@, i) as int)
                    == Some(target@) {
                    assert(spec_leaf_folded(hive, spec_ri_leaf_at(hive, *ri, k), i) == target@);
                    lemma_chars_cmp_eq(target@, target@);
                }
            }
        }
    }
    None
}

} // verus!
