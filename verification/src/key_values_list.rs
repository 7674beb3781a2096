use vstd::prelude::*;

use crate::error::NtHiveError;
use crate::helpers::{read_le32, spec_le32};
use crate::hive::{Hive, NO_OFFSET};
use crate::key_value::KeyValue;

verus! {

/// Iterator over the values list of a key node, returning a [`KeyValue`]
/// for each item. A values list is an untagged array of 32-bit offsets.
#[derive(Clone, Copy, Debug)]
pub struct KeyValues<'a> {
    /// The hive the values belong to.
    pub hive: Hive<'a>,
    /// Absolute position of the first list item.
    pub items_start: usize,
    /// Number of values.
    pub count: u32,
    /// Position of the next value that [`KeyValues::next`] yields.
    pub index: u32,
}

impl<'a> KeyValues<'a> {
    /// True when the list items lie within the buffer.
    pub open spec fn wf(self) -> bool {
        &&& self.hive.wf()
        &&& self.items_start + self.count * 4 <= self.hive@.len()
        &&& self.index <= self.count
    }

    /// The key-value offset of item `i`.
    pub open spec fn spec_offset(self, b: Seq<u8>, i: int) -> u32 {
        spec_le32(b, self.items_start + 4 * i)
    }

    /// Number of values.
    pub fn len(&self) -> (r: usize)
        ensures
            r == self.count,
    {
        self.count as usize
    }

    /// The next value, in on-disk order, or `None` after the last one.
    ///
    /// A value whose record is corrupt yields an error without ending the
    /// iteration.
    pub fn next(&mut self) -> (r: Option<Result<KeyValue<'a>, NtHiveError>>)
        requires
            old(self).wf(),
        ensures
            final(self).wf(),
            final(self).hive == old(self).hive,
            final(self).items_start == old(self).items_start,
            final(self).count == old(self).count,
            old(self).index >= old(self).count ==> r is None && final(self).index == old(
                self,
            ).index,
            old(self).index < old(self).count ==> {
                &&& final(self).index == old(self).index + 1
                &&& ({
                    let off = old(self).spec_offset(old(self).hive@, old(self).index as int);
                    match r {
                        Some(res) => match res {
                            Ok(v) => {
                                &&& crate::key_value::spec_vk_ok(old(self).hive@, off as int)
                                &&& v == KeyValue::spec_at(old(self).hive, off as int)
                                &&& v.wf()
                            },
                            Err(_) => !crate::key_value::spec_vk_ok(old(self).hive@, off as int),
                        },
                        None => false,
                    }
                })
            },
    {
        let n = self.hive.bytes.len();
        if self.index >= self.count {
            return None;
        }
        proof {
            assert(((self.index as int) + 1) * 4 == (self.index as int) * 4 + 4)
                by (nonlinear_arith);
            vstd::arithmetic::mul::lemma_mul_inequality(
                self.index as int + 1,
                self.count as int,
                4,
            );
        }
        let pos = self.items_start + (self.index as usize) * 4;
        self.index = self.index + 1;
        let off = read_le32(self.hive.bytes, pos);
        if off == NO_OFFSET {
            return Some(
                Err(
                    NtHiveError::InvalidHeaderSize {
                        offset: crate::helpers::sat_add(
                            off as usize,
                            crate::hive::BASE_BLOCK_SIZE,
                        ),
                        expected: crate::hive::CELL_HEADER_SIZE,
                        actual: 0,
                    },
                ),
            );
        }
        let cell_range = match self.hive.cell_range_from_data_offset(off) {
            Ok(rg) => rg,
            Err(e) => {
                return Some(Err(e));
            },
        };
        match KeyValue::new(self.hive, cell_range) {
            Ok(v) => Some(Ok(v)),
            Err(e) => Some(Err(e)),
        }
    }
}

} // verus!
