use vstd::prelude::*;

use crate::error::NtHiveError;
use crate::helpers::{read_le32, spec_le32};
use crate::hive::{Hive, NO_OFFSET};
use crate::index_root::IndexRootItemRange;
use crate::subkeys_list::{
    parse_subkeys_list, spec_list_cell_ok, spec_list_count, spec_list_is_leaf, spec_list_items_start,
    spec_list_body_end, spec_list_sig0, spec_list_sig1, SubkeysListHeader,
};

verus! {

/// All known and supported Leaf types.
///
/// Fast Leafs add a name hint (the first four bytes of the key name) and Hash
/// Leafs a name hash to each item; both are ignored here, and all types are
/// treated equally by only reading the `key_node_offset` field that every
/// variant starts with.
#[derive(Clone, Copy, Debug, PartialEq, Eq, Structural)]
pub enum LeafType {
    /// A Fast Leaf (`lf`).
    Fast,
    /// A Hash Leaf (`lh`).
    Hash,
    /// An Index Leaf (`li`).
    Index,
}

/// The Leaf type encoded by a two-byte signature: `lf`, `lh` or `li`.
pub open spec fn spec_leaf_type(s0: u8, s1: u8) -> Option<LeafType> {
    if s0 == 0x6c && s1 == 0x66 {
        Some(LeafType::Fast)
    } else if s0 == 0x6c && s1 == 0x68 {
        Some(LeafType::Hash)
    } else if s0 == 0x6c && s1 == 0x69 {
        Some(LeafType::Index)
    } else {
        None
    }
}

/// Size in bytes of one item of a Leaf of the given type.
pub open spec fn spec_leaf_item_size(t: LeafType) -> int {
    match t {
        LeafType::Fast => 8,
        LeafType::Hash => 8,
        LeafType::Index => 4,
    }
}

impl LeafType {
    /// Decodes a two-byte Leaf signature.
    pub fn from_signature(s0: u8, s1: u8) -> (r: Option<LeafType>)
        ensures
            r == spec_leaf_type(s0, s1),
    {
        if s0 == 0x6c && s1 == 0x66 {
            Some(LeafType::Fast)
        } else if s0 == 0x6c && s1 == 0x68 {
            Some(LeafType::Hash)
        } else if s0 == 0x6c && s1 == 0x69 {
            Some(LeafType::Index)
        } else {
            None
        }
    }

    /// Size in bytes of one item of this Leaf type.
    pub fn item_size(&self) -> (r: usize)
        ensures
            r == spec_leaf_item_size(*self),
    {
        match self {
            LeafType::Fast => 8,
            LeafType::Hash => 8,
            LeafType::Index => 4,
        }
    }
}

/// The key-node offset stored in item `i` of a Leaf whose items begin at the
/// absolute position `items_start`.
pub open spec fn spec_leaf_item_offset(
    b: Seq<u8>,
    items_start: int,
    item_size: int,
    i: int,
) -> u32 {
    spec_le32(b, items_start + i * item_size)
}

/// The item table of the Leaf subkeys list at data offset `lo`, as the
/// parser builds it; meaningful when [`spec_ri_leaf_ok`] holds of `lo`.
#[verifier::opaque]
pub open spec fn spec_leaf_items_of_list(b: Seq<u8>, lo: int) -> LeafItemRanges {
    let t = match spec_leaf_type(spec_list_sig0(b, lo), spec_list_sig1(b, lo)) {
        Some(t) => t,
        None => LeafType::Index,
    };
    LeafItemRanges {
        items_start: spec_list_items_start(lo) as usize,
        count: spec_list_count(b, lo),
        item_size: spec_leaf_item_size(t) as usize,
        index: 0,
    }
}

/// True when an Index Root item's offset `lo` resolves to a well-formed,
/// non-empty Leaf subkeys list whose items all fit in its cell.
#[verifier::opaque]
pub open spec fn spec_ri_leaf_ok(b: Seq<u8>, lo: int) -> bool {
    &&& lo != NO_OFFSET
    &&& spec_list_cell_ok(b, lo)
    &&& spec_list_is_leaf(b, lo)
    &&& spec_list_count(b, lo) >= 1
    &&& spec_list_items_start(lo) + spec_list_count(b, lo) * spec_leaf_items_of_list(
        b,
        lo,
    ).item_size <= spec_list_body_end(b, lo)
}

/// The exact error reported when an Index Root item's offset `lo` does not
/// resolve to a usable Leaf subkeys list: the checks run in a fixed order
/// and the first mismatch is reported.
pub open spec fn spec_ri_leaf_err(b: Seq<u8>, lo: int, e: NtHiveError) -> bool {
    if lo == NO_OFFSET {
        e == NtHiveError::InvalidHeaderSize {
            offset: crate::helpers::spec_sat_add(lo, crate::hive::BASE_BLOCK_SIZE as int),
            expected: crate::hive::CELL_HEADER_SIZE,
            actual: 0,
        }
    } else if !crate::hive::spec_cell_ok(b, lo) {
        e == crate::hive::spec_cell_err(b, lo)
    } else if crate::hive::spec_cell_body_len(b, lo) < crate::subkeys_list::SUBKEYS_LIST_HEADER_SIZE {
        e == NtHiveError::InvalidHeaderSize {
            offset: crate::hive::spec_cell_body_start(lo) as usize,
            expected: crate::subkeys_list::SUBKEYS_LIST_HEADER_SIZE,
            actual: crate::hive::spec_cell_body_len(b, lo) as usize,
        }
    } else if !spec_list_is_leaf(b, lo) {
        e matches NtHiveError::InvalidTwoByteSignature { offset, expected, actual } && offset
            == crate::hive::spec_cell_body_start(lo) as usize && expected@ == seq![
            0x6cu8,
            0x66u8,
            0x7cu8,
            0x6cu8,
            0x68u8,
            0x7cu8,
            0x6cu8,
            0x69u8,
        ] && actual == [spec_list_sig0(b, lo), spec_list_sig1(b, lo)]
    } else if spec_list_count(b, lo) == 0 {
        e == NtHiveError::InvalidSizeField {
            offset: (spec_list_items_start(lo) - 2) as usize,
            expected: 1,
            actual: 0,
        }
    } else {
        e == NtHiveError::InvalidSizeField {
            offset: (spec_list_items_start(lo) - 2) as usize,
            expected: (spec_list_count(b, lo) * spec_leaf_items_of_list(b, lo).item_size) as usize,
            actual: (spec_list_body_end(b, lo) - spec_list_items_start(lo)) as usize,
        }
    }
}

/// Byte range of a single Leaf item: the absolute position where the item
/// starts. The key-node offset is the item's first field in every Leaf
/// variant.
#[derive(Clone, Copy, Debug)]
pub struct LeafItemRange {
    pub start: usize,
}

impl LeafItemRange {
    /// Reads the key-node offset of this item.
    pub fn key_node_offset(&self, hive: &Hive) -> (r: u32)
        requires
            self.start + 4 <= hive@.len(),
        ensures
            r == spec_le32(hive@, self.start as int),
    {
        read_le32(hive.bytes, self.start)
    }
}

/// Random access to the items of one Leaf of any type (Fast/Hash/Index), and
/// an iterator over them.
///
/// On-Disk Signatures: `lf`, `lh`, `li`
#[derive(Clone, Copy, Debug)]
pub struct LeafItemRanges {
    /// Absolute position of the first item.
    pub items_start: usize,
    /// Number of items.
    pub count: u16,
    /// Size in bytes of one item.
    pub item_size: usize,
    /// Position of the next item that [`LeafItemRanges::next`] yields.
    pub index: u16,
}

impl LeafItemRanges {
    /// True when all items lie within the buffer `b` and the item size is one
    /// of a Leaf variant.
    pub open spec fn wf(self, b: Seq<u8>) -> bool {
        &&& self.items_start + self.count * self.item_size <= b.len()
        &&& (self.item_size == 4 || self.item_size == 8)
        &&& self.index <= self.count
    }

    /// The key-node offset of item `i`.
    pub open spec fn spec_offset(self, b: Seq<u8>, i: int) -> u32 {
        spec_leaf_item_offset(b, self.items_start as int, self.item_size as int, i)
    }

    /// Builds the item table of a Leaf with `count` items whose item area
    /// starts at `items_start` and must fit before `body_end`;
    /// `count_field_offset` is only reported in errors.
    pub fn new(
        count: u16,
        count_field_offset: usize,
        items_start: usize,
        body_end: usize,
        leaf_type: LeafType,
    ) -> (r: Result<LeafItemRanges, NtHiveError>)
        requires
            items_start <= body_end,
        ensures
            match r {
                Ok(it) => {
                    &&& items_start + count * spec_leaf_item_size(leaf_type) <= body_end
                    &&& it.items_start == items_start
                    &&& it.count == count
                    &&& it.item_size == spec_leaf_item_size(leaf_type)
                    &&& it.index == 0
                },
                Err(e) => {
                    &&& items_start + count * spec_leaf_item_size(leaf_type) > body_end
                    &&& e == NtHiveError::InvalidSizeField {
                        offset: count_field_offset,
                        expected: (count * spec_leaf_item_size(leaf_type)) as usize,
                        actual: (body_end - items_start) as usize,
                    }
                },
            },
    {
        let item_size = leaf_type.item_size();
        let byte_count = (count as usize) * item_size;
        if byte_count > body_end - items_start {
            return Err(
                NtHiveError::InvalidSizeField {
                    offset: count_field_offset,
                    expected: byte_count,
                    actual: body_end - items_start,
                },
            );
        }
        Ok(LeafItemRanges { items_start, count, item_size, index: 0 })
    }

    /// Number of items.
    pub fn len(&self) -> (r: usize)
        ensures
            r == self.count,
    {
        self.count as usize
    }

    /// The item at position `i`.
    pub fn item(&self, i: u16) -> (r: LeafItemRange)
        requires
            i < self.count,
            self.items_start + self.count * self.item_size <= usize::MAX,
        ensures
            r.start == self.items_start + i * self.item_size,
    {
        proof {
            vstd::arithmetic::mul::lemma_mul_inequality(
                i as int,
                self.count as int,
                self.item_size as int,
            );
        }
        LeafItemRange { start: self.items_start + (i as usize) * self.item_size }
    }

    /// Resolves the Leaf subkeys list referenced by an Index Root item and
    /// builds its item table.
    ///
    /// Subkeys lists belonging to Index Root items must contain at least one
    /// item, must carry a Leaf signature (Index Roots may not nest), and
    /// their items must fit in the list's cell.
    pub fn from_index_root_item_range<'a>(
        hive: &Hive<'a>,
        index_root_item_range: IndexRootItemRange,
    ) -> (r: Result<LeafItemRanges, NtHiveError>)
        requires
            hive.wf(),
            index_root_item_range.start + 4 <= hive@.len(),
        ensures
            ({
                let lo = spec_le32(hive@, index_root_item_range.start as int) as int;
                match r {
                    Ok(items) => {
                        &&& spec_ri_leaf_ok(hive@, lo)
                        &&& items == spec_leaf_items_of_list(hive@, lo)
                        &&& items.wf(hive@)
                        &&& items.count >= 1
                    },
                    Err(e) => !spec_ri_leaf_ok(hive@, lo) && spec_ri_leaf_err(hive@, lo, e),
                }
            }),
    {
        proof {
            reveal(spec_leaf_items_of_list);
            reveal(spec_ri_leaf_ok);
        }
        let lo = index_root_item_range.subkeys_list_offset(hive);
        if lo == NO_OFFSET {
            return Err(
                NtHiveError::InvalidHeaderSize {
                    offset: crate::helpers::sat_add(lo as usize, crate::hive::BASE_BLOCK_SIZE),
                    expected: crate::hive::CELL_HEADER_SIZE,
                    actual: 0,
                },
            );
        }
        let header = parse_subkeys_list(hive, lo, false)?;
        match header {
            SubkeysListHeader::Leaf { leaf_type, count, items_start, body_end } => {
                let count_field_offset = items_start - 2;
                if count == 0 {
                    return Err(
                        NtHiveError::InvalidSizeField {
                            offset: count_field_offset,
                            expected: 1,
                            actual: 0,
                        },
                    );
                }
                LeafItemRanges::new(count, count_field_offset, items_start, body_end, leaf_type)
            },
            SubkeysListHeader::IndexRoot { .. } => {
                proof {
                    assert(false);
                }
                Err(NtHiveError::InvalidHeaderSize { offset: 0, expected: 0, actual: 0 })
            },
        }
    }

    /// The next item, in on-disk order, or `None` after the last one.
    pub fn next(&mut self) -> (r: Option<LeafItemRange>)
        requires
            old(self).items_start + old(self).count * old(self).item_size <= usize::MAX,
        ensures
            old(self).index < old(self).count ==> {
                &&& r matches Some(item) && item.start == old(self).items_start + old(self).index
                    * old(self).item_size
                &&& final(self).index == old(self).index + 1
            },
            old(self).index >= old(self).count ==> r is None && *final(self) == *old(self),
            final(self).items_start == old(self).items_start && final(self).count == old(
                self,
            ).count && final(self).item_size == old(self).item_size,
            final(self).index >= old(self).index,
    {
        if self.index < self.count {
            proof {
                vstd::arithmetic::mul::lemma_mul_inequality(
                    self.index as int,
                    self.count as int,
                    self.item_size as int,
                );
            }
            let start = self.items_start + (self.index as usize) * self.item_size;
            self.index = self.index + 1;
            Some(LeafItemRange { start })
        } else {
            None
        }
    }
}

/// Iterator over the items of one Leaf of any type (Fast/Hash/Index),
/// returning a [`KeyNode`] for each item, used by
/// [`SubKeyNodes`](crate::subkeys_list::SubKeyNodes).
///
/// On-Disk Signatures: `lf`, `lh`, `li`
#[derive(Clone, Copy, Debug)]
pub struct LeafKeyNodes<'a> {
    /// The hive the Leaf belongs to.
    pub hive: Hive<'a>,
    /// The Leaf's item table, which carries the iteration position.
    pub items: LeafItemRanges,
}

impl<'a> LeafKeyNodes<'a> {
    /// True when the item table lies within the hive's buffer.
    pub open spec fn wf(self) -> bool {
        &&& self.hive.wf()
        &&& self.items.wf(self.hive@)
    }

    /// The next subkey, in on-disk order, or `None` after the last one.
    pub fn next(&mut self) -> (r: Option<Result<crate::key_node::KeyNode<'a>, NtHiveError>>)
        requires
            old(self).wf(),
        ensures
            final(self).wf(),
            final(self).hive == old(self).hive,
            final(self).items.items_start == old(self).items.items_start,
            final(self).items.count == old(self).items.count,
            final(self).items.item_size == old(self).items.item_size,
            old(self).items.index >= old(self).items.count ==> r is None && final(self).items.index
                == old(self).items.index,
            old(self).items.index < old(self).items.count ==> {
                &&& final(self).items.index == old(self).items.index + 1
                &&& ({
                    let off = old(self).items.spec_offset(
                        old(self).hive@,
                        old(self).items.index as int,
                    );
                    match r {
                        Some(res) => match res {
                            Ok(kn) => {
                                &&& crate::key_node::spec_nk_ok(old(self).hive@, off as int)
                                &&& kn == crate::key_node::KeyNode::spec_at(
                                    old(self).hive,
                                    off as int,
                                )
                                &&& kn.wf()
                            },
                            Err(_) => !crate::key_node::spec_nk_ok(old(self).hive@, off as int),
                        },
                        None => false,
                    }
                })
            },
    {
        let n = self.hive.bytes.len();
        let item = match self.items.next() {
            Some(it) => it,
            None => {
                return None;
            },
        };
        proof {
            let idx = old(self).items.index as int;
            assert((idx + 1) * (self.items.item_size as int) == idx * (self.items.item_size as int)
                + (self.items.item_size as int)) by (nonlinear_arith);
            vstd::arithmetic::mul::lemma_mul_inequality(
                idx + 1,
                self.items.count as int,
                self.items.item_size as int,
            );
        }
        let off = item.key_node_offset(&self.hive);
        if off == NO_OFFSET {
            return Some(
                Err(
                    NtHiveError::InvalidHeaderSize {
                        offset: crate::helpers::sat_add(
                            off as usize,
                            crate::hive::BASE_BLOCK_SIZE,
                        ),
                        expected: crate::hive::CELL_HEADER_SIZE,
                        actual: 0,
                    },
                ),
            );
        }
        match crate::key_node::KeyNode::from_data_offset(self.hive, off) {
            Ok(kn) => Some(Ok(kn)),
            Err(e) => Some(Err(e)),
        }
    }
}

} // verus!
