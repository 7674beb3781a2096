use vstd::prelude::*;

use crate::error::NtHiveError;
use crate::helpers::{read_le32, spec_le32};
use crate::hive::Hive;

verus! {

/// Size in bytes of one Index Root item: the offset of a Leaf subkeys list.
pub const INDEX_ROOT_ITEM_SIZE: usize = 4;

/// The item table of the Index Root subkeys list at data offset `lo`, as the
/// parser builds it.
pub open spec fn spec_ri_items_of_list(b: Seq<u8>, lo: int) -> IndexRootItemRanges {
    IndexRootItemRanges {
        items_start: crate::subkeys_list::spec_list_items_start(lo) as usize,
        count: crate::subkeys_list::spec_list_count(b, lo),
        index: 0,
    }
}

/// Byte range of a single Index Root item: the absolute position where the
/// item starts.
#[derive(Clone, Copy, Debug)]
pub struct IndexRootItemRange {
    pub start: usize,
}

impl IndexRootItemRange {
    /// Reads the subkeys-list offset of this item.
    pub fn subkeys_list_offset(&self, hive: &Hive) -> (r: u32)
        requires
            self.start + 4 <= hive@.len(),
        ensures
            r == spec_le32(hive@, self.start as int),
    {
        read_le32(hive.bytes, self.start)
    }
}

/// Random access to the items of one Index Root, and an iterator over them.
///
/// On-Disk Signature: `ri`
#[derive(Clone, Copy, Debug)]
pub struct IndexRootItemRanges {
    /// Absolute position of the first item.
    pub items_start: usize,
    /// Number of items.
    pub count: u16,
    /// Position of the next item that [`IndexRootItemRanges::next`] yields.
    pub index: u16,
}

impl IndexRootItemRanges {
    /// True when all items lie within the buffer `b`.
    pub open spec fn wf(self, b: Seq<u8>) -> bool {
        &&& self.items_start + self.count * INDEX_ROOT_ITEM_SIZE <= b.len()
        &&& self.index <= self.count
    }

    /// The subkeys-list offset of item `i`.
    pub open spec fn spec_offset(self, b: Seq<u8>, i: int) -> u32 {
        spec_le32(b, self.items_start + i * INDEX_ROOT_ITEM_SIZE)
    }

    /// Builds the item table of an Index Root with `count` items whose item
    /// area starts at `items_start` and must fit before `body_end`;
    /// `count_field_offset` is only reported in errors.
    pub fn new(count: u16, count_field_offset: usize, items_start: usize, body_end: usize) -> (r:
        Result<IndexRootItemRanges, NtHiveError>)
        requires
            items_start <= body_end,
        ensures
            match r {
                Ok(it) => {
                    &&& items_start + count * INDEX_ROOT_ITEM_SIZE <= body_end
                    &&& it.items_start == items_start
                    &&& it.count == count
                    &&& it.index == 0
                },
                Err(e) => {
                    &&& items_start + count * INDEX_ROOT_ITEM_SIZE > body_end
                    &&& e == NtHiveError::InvalidSizeField {
                        offset: count_field_offset,
                        expected: (count * INDEX_ROOT_ITEM_SIZE) as usize,
                        actual: (body_end - items_start) as usize,
                    }
                },
            },
    {
        let byte_count = (count as usize) * INDEX_ROOT_ITEM_SIZE;
        if byte_count > body_end - items_start {
            return Err(
                NtHiveError::InvalidSizeField {
                    offset: count_field_offset,
                    expected: byte_count,
                    actual: body_end - items_start,
                },
            );
        }
        Ok(IndexRootItemRanges { items_start, count, index: 0 })
    }

    /// Number of items.
    pub fn len(&self) -> (r: usize)
        ensures
            r == self.count,
    {
        self.count as usize
    }

    /// The item at position `i`.
    pub fn item(&self, i: u16) -> (r: IndexRootItemRange)
        requires
            i < self.count,
            self.items_start + self.count * INDEX_ROOT_ITEM_SIZE <= usize::MAX,
        ensures
            r.start == self.items_start + i * INDEX_ROOT_ITEM_SIZE,
    {
        proof {
            vstd::arithmetic::mul::lemma_mul_inequality(
                i as int,
                self.count as int,
                INDEX_ROOT_ITEM_SIZE as int,
            );
        }
        IndexRootItemRange { start: self.items_start + (i as usize) * INDEX_ROOT_ITEM_SIZE }
    }

    /// The next item, in on-disk order, or `None` after the last one.
    pub fn next(&mut self) -> (r: Option<IndexRootItemRange>)
        requires
            old(self).items_start + old(self).count * INDEX_ROOT_ITEM_SIZE <= usize::MAX,
        ensures
            old(self).index < old(self).count ==> {
                &&& r matches Some(item) && item.start == old(self).items_start + old(self).index
                    * INDEX_ROOT_ITEM_SIZE
                &&& final(self).index == old(self).index + 1
            },
            old(self).index >= old(self).count ==> r is None && *final(self) == *old(self),
            final(self).items_start == old(self).items_start && final(self).count == old(
                self,
            ).count,
            final(self).index >= old(self).index,
    {
        if self.index < self.count {
            proof {
                vstd::arithmetic::mul::lemma_mul_inequality(
                    self.index as int,
                    self.count as int,
                    INDEX_ROOT_ITEM_SIZE as int,
                );
            }
            let start = self.items_start + (self.index as usize) * INDEX_ROOT_ITEM_SIZE;
            self.index = self.index + 1;
            Some(IndexRootItemRange { start })
        } else {
            None
        }
    }
}

/// Iterator over every key node referenced through an Index Root: the items
/// of all its Leafs, one Leaf after another, used by
/// [`SubKeyNodes`](crate::subkeys_list::SubKeyNodes).
///
/// The Leaf tables are resolved when the iterator is built; iteration then
/// walks the collected key-node offsets.
///
/// On-Disk Signature: `ri`
#[derive(Debug)]
pub struct IndexRootKeyNodes<'a> {
    /// The hive the Index Root belongs to.
    pub hive: Hive<'a>,
    /// The key-node offsets of all Leafs, in on-disk order.
    pub offsets: Vec<u32>,
    /// Position of the next offset to yield.
    pub index: usize,
}

impl<'a> IndexRootKeyNodes<'a> {
    /// True when the iteration position is within bounds.
    pub open spec fn wf(self) -> bool {
        &&& self.hive.wf()
        &&& self.index <= self.offsets@.len()
    }

    /// The next subkey, in on-disk order, or `None` after the last one.
    pub fn next(&mut self) -> (r: Option<Result<crate::key_node::KeyNode<'a>, NtHiveError>>)
        requires
            old(self).wf(),
        ensures
            final(self).wf(),
            final(self).hive == old(self).hive,
            final(self).offsets@ == old(self).offsets@,
            old(self).index >= old(self).offsets@.len() ==> r is None && final(self).index == old(
                self,
            ).index,
            old(self).index < old(self).offsets@.len() ==> {
                &&& final(self).index == old(self).index + 1
                &&& ({
                    let off = old(self).offsets@[old(self).index as int];
                    match r {
                        Some(res) => match res {
                            Ok(kn) => {
                                &&& crate::key_node::spec_nk_ok(old(self).hive@, off as int)
                                &&& kn == crate::key_node::KeyNode::spec_at(
                                    old(self).hive,
                                    off as int,
                                )
                                &&& kn.wf()
                            },
                            Err(_) => !crate::key_node::spec_nk_ok(old(self).hive@, off as int),
                        },
                        None => false,
                    }
                })
            },
    {
        if self.index >= self.offsets.len() {
            return None;
        }
        let off = self.offsets[self.index];
        self.index = self.index + 1;
        if off == crate::hive::NO_OFFSET {
            return Some(
                Err(
                    NtHiveError::InvalidHeaderSize {
                        offset: crate::helpers::sat_add(
                            off as usize,
                            crate::hive::BASE_BLOCK_SIZE,
                        ),
                        expected: crate::hive::CELL_HEADER_SIZE,
                        actual: 0,
                    },
                ),
            );
        }
        match crate::key_node::KeyNode::from_data_offset(self.hive, off) {
            Ok(kn) => Some(Ok(kn)),
            Err(e) => Some(Err(e)),
        }
    }
}

} // verus!
