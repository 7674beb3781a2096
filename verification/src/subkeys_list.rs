use vstd::prelude::*;

use crate::error::NtHiveError;
use crate::helpers::{read_le16, spec_le16};
use crate::hive::{
    spec_cell_body_end, spec_cell_body_len, spec_cell_body_start, spec_cell_err, spec_cell_ok,
    Hive, BASE_BLOCK_SIZE,
};
use crate::index_root::{
    spec_ri_items_of_list, IndexRootItemRanges, IndexRootKeyNodes, INDEX_ROOT_ITEM_SIZE,
};
use crate::key_node::KeyNode;
use crate::leaf::{
    spec_leaf_items_of_list, spec_leaf_type, spec_ri_leaf_ok, LeafItemRanges, LeafKeyNodes,
    LeafType,
};

verus! {

/// Size in bytes of the common subkeys-list header: a two-byte signature and
/// a `u16` item count.
pub const SUBKEYS_LIST_HEADER_SIZE: usize = 4;

/// True when the cell at data offset `off` is large enough to hold a
/// subkeys-list header.
pub open spec fn spec_list_cell_ok(b: Seq<u8>, off: int) -> bool {
    &&& spec_cell_ok(b, off)
    &&& spec_cell_body_len(b, off) >= SUBKEYS_LIST_HEADER_SIZE
}

/// First signature byte of the subkeys list at data offset `off`.
pub open spec fn spec_list_sig0(b: Seq<u8>, off: int) -> u8 {
    b[spec_cell_body_start(off)]
}

/// Second signature byte of the subkeys list at data offset `off`.
pub open spec fn spec_list_sig1(b: Seq<u8>, off: int) -> u8 {
    b[spec_cell_body_start(off) + 1]
}

/// Item count of the subkeys list at data offset `off`.
pub open spec fn spec_list_count(b: Seq<u8>, off: int) -> u16 {
    spec_le16(b, spec_cell_body_start(off) + 2)
}

/// Absolute byte position of the first item of the subkeys list at data
/// offset `off`.
pub open spec fn spec_list_items_start(off: int) -> int {
    spec_cell_body_start(off) + SUBKEYS_LIST_HEADER_SIZE
}

/// Absolute byte position just past the cell body of the subkeys list.
pub open spec fn spec_list_body_end(b: Seq<u8>, off: int) -> int {
    spec_cell_body_end(b, off)
}

/// True when the subkeys list at `off` carries one of the three Leaf
/// signatures `lf`, `lh`, `li`.
pub open spec fn spec_list_is_leaf(b: Seq<u8>, off: int) -> bool {
    spec_leaf_type(spec_list_sig0(b, off), spec_list_sig1(b, off)) is Some
}

/// True when the subkeys list at `off` carries the Index Root signature
/// `ri`.
pub open spec fn spec_list_is_index_root(b: Seq<u8>, off: int) -> bool {
    spec_list_sig0(b, off) == 0x72 && spec_list_sig1(b, off) == 0x69
}

/// A parsed subkeys-list header: its tag, count, and item area.
///
/// A subkeys list generalizes over all structures used to manage subkeys:
/// Fast Leaf (`lf`), Hash Leaf (`lh`), Index Leaf (`li`), Index Root (`ri`).
pub(crate) enum SubkeysListHeader {
    /// One of the three Leaf variants.
    Leaf { leaf_type: LeafType, count: u16, items_start: usize, body_end: usize },
    /// An Index Root.
    IndexRoot { count: u16, items_start: usize, body_end: usize },
}

/// Parses the header of the subkeys list at data offset `list_offset`;
/// `index_root_supported` is false when walking a single Leaf referenced from
/// an Index Root, since Index Roots may not nest.
pub(crate) fn parse_subkeys_list(
    hive: &Hive,
    list_offset: u32,
    index_root_supported: bool,
) -> (r: Result<SubkeysListHeader, NtHiveError>)
    requires
        hive.wf(),
        list_offset != crate::hive::NO_OFFSET,
    ensures
        match r {
            Ok(h) => {
                &&& spec_list_cell_ok(hive@, list_offset as int)
                &&& match h {
                    SubkeysListHeader::Leaf { leaf_type, count, items_start, body_end } => {
                        &&& spec_list_is_leaf(hive@, list_offset as int)
                        &&& Some(leaf_type) == spec_leaf_type(
                            spec_list_sig0(hive@, list_offset as int),
                            spec_list_sig1(hive@, list_offset as int),
                        )
                        &&& count == spec_list_count(hive@, list_offset as int)
                        &&& items_start == spec_list_items_start(list_offset as int)
                        &&& body_end == spec_list_body_end(hive@, list_offset as int)
                        &&& items_start <= body_end <= hive@.len()
                    },
                    SubkeysListHeader::IndexRoot { count, items_start, body_end } => {
                        &&& index_root_supported
                        &&& spec_list_is_index_root(hive@, list_offset as int)
                        &&& count == spec_list_count(hive@, list_offset as int)
                        &&& items_start == spec_list_items_start(list_offset as int)
                        &&& body_end == spec_list_body_end(hive@, list_offset as int)
                        &&& items_start <= body_end <= hive@.len()
                    },
                }
            },
            Err(e) => {
                ||| !spec_cell_ok(hive@, list_offset as int) && e == spec_cell_err(
                    hive@,
                    list_offset as int,
                )
                ||| (spec_cell_ok(hive@, list_offset as int) && spec_cell_body_len(
                    hive@,
                    list_offset as int,
                ) < SUBKEYS_LIST_HEADER_SIZE) && e == NtHiveError::InvalidHeaderSize {
                    offset: spec_cell_body_start(list_offset as int) as usize,
                    expected: SUBKEYS_LIST_HEADER_SIZE,
                    actual: spec_cell_body_len(hive@, list_offset as int) as usize,
                }
                ||| {
                    &&& spec_list_cell_ok(hive@, list_offset as int)
                    &&& !(spec_list_is_leaf(hive@, list_offset as int) || (index_root_supported
                        && spec_list_is_index_root(hive@, list_offset as int)))
                    &&& (e matches NtHiveError::InvalidTwoByteSignature {
                        offset,
                        expected,
                        actual,
                    } ==> offset == spec_cell_body_start(list_offset as int) as usize && actual
                        == [
                        spec_list_sig0(hive@, list_offset as int),
                        spec_list_sig1(hive@, list_offset as int),
                    ] && expected@ == (if index_root_supported {
                        seq![
                            0x6cu8, 0x66u8, 0x7cu8, 0x6cu8, 0x68u8, 0x7cu8, 0x6cu8, 0x69u8, 0x7cu8,
                            0x72u8, 0x69u8,
                        ]
                    } else {
                        seq![0x6cu8, 0x66u8, 0x7cu8, 0x6cu8, 0x68u8, 0x7cu8, 0x6cu8, 0x69u8]
                    }))
                    &&& (e is InvalidTwoByteSignature)
                }
            },
        },
{
    let cell_range = hive.cell_range_from_data_offset(list_offset)?;
    let body_start = cell_range.start;
    let body_end = cell_range.end;
    if body_end - body_start < SUBKEYS_LIST_HEADER_SIZE {
        return Err(
            NtHiveError::InvalidHeaderSize {
                offset: body_start,
                expected: SUBKEYS_LIST_HEADER_SIZE,
                actual: body_end - body_start,
            },
        );
    }
    let sig0 = hive.bytes[body_start];
    let sig1 = hive.bytes[body_start + 1];
    let count = read_le16(hive.bytes, body_start + 2);
    let items_start = body_start + SUBKEYS_LIST_HEADER_SIZE;

    match LeafType::from_signature(sig0, sig1) {
        Some(leaf_type) => Ok(
            SubkeysListHeader::Leaf { leaf_type, count, items_start, body_end },
        ),
        None => {
            if index_root_supported && sig0 == 0x72 && sig1 == 0x69 {
                Ok(SubkeysListHeader::IndexRoot { count, items_start, body_end })
            } else {
                let expected: Vec<u8> = if index_root_supported {
                    // "lf|lh|li|ri"
                    vec![
                        0x6c, 0x66, 0x7c, 0x6c, 0x68, 0x7c, 0x6c, 0x69, 0x7c, 0x72,
                        0x69,
                    ]
                } else {
                    // "lf|lh|li"
                    vec![0x6c, 0x66, 0x7c, 0x6c, 0x68, 0x7c, 0x6c, 0x69]
                };
                Err(
                    NtHiveError::InvalidTwoByteSignature {
                        offset: body_start,
                        expected,
                        actual: [sig0, sig1],
                    },
                )
            }
        },
    }
}

/// The key-node offsets stored in the items of one Leaf.
pub open spec fn spec_leaf_offsets_seq(b: Seq<u8>, items: LeafItemRanges) -> Seq<u32> {
    Seq::new(items.count as nat, |i: int| items.spec_offset(b, i))
}

/// The key-node offsets of the first `k` Leafs of an Index Root,
/// concatenated in on-disk order.
pub open spec fn spec_ri_flat_prefix(b: Seq<u8>, ri: IndexRootItemRanges, k: int) -> Seq<u32>
    decreases k,
{
    if k <= 0 {
        Seq::empty()
    } else {
        spec_ri_flat_prefix(b, ri, k - 1) + spec_leaf_offsets_seq(
            b,
            spec_leaf_items_of_list(b, ri.spec_offset(b, k - 1) as int),
        )
    }
}

/// True when the subkeys list at `lo` is structurally well-formed for
/// iteration: its items fit, and for an Index Root every referenced Leaf
/// resolves.
pub open spec fn spec_subkeys_list_wf(b: Seq<u8>, lo: int) -> bool {
    &&& spec_list_cell_ok(b, lo)
    &&& (spec_list_is_leaf(b, lo) || spec_list_is_index_root(b, lo))
    &&& (spec_list_is_leaf(b, lo) ==> spec_list_items_start(lo) + spec_list_count(b, lo)
        * spec_leaf_items_of_list(b, lo).item_size <= spec_list_body_end(b, lo))
    &&& (spec_list_is_index_root(b, lo) ==> {
        &&& spec_list_items_start(lo) + spec_list_count(b, lo) * INDEX_ROOT_ITEM_SIZE
            <= spec_list_body_end(b, lo)
        &&& forall|k: int|
            0 <= k < spec_list_count(b, lo) ==> spec_ri_leaf_ok(
                b,
                (#[trigger] spec_ri_items_of_list(b, lo).spec_offset(b, k)) as int,
            )
    })
}

/// The key-node offsets of all direct subkeys reachable through the subkeys
/// list at `lo`, in on-disk order.
pub open spec fn spec_subkey_offsets(b: Seq<u8>, lo: int) -> Seq<u32> {
    if spec_list_is_leaf(b, lo) {
        spec_leaf_offsets_seq(b, spec_leaf_items_of_list(b, lo))
    } else if spec_list_is_index_root(b, lo) {
        let ri = spec_ri_items_of_list(b, lo);
        spec_ri_flat_prefix(b, ri, ri.count as int)
    } else {
        Seq::empty()
    }
}

/// The exact error reported when the subkeys list at `lo` cannot be
/// iterated: the checks run in a fixed order, and for an Index Root the
/// first unresolvable Leaf is reported.
pub open spec fn spec_subkeys_iter_err(b: Seq<u8>, lo: int, e: NtHiveError) -> bool {
    if !spec_cell_ok(b, lo) {
        e == spec_cell_err(b, lo)
    } else if spec_cell_body_len(b, lo) < SUBKEYS_LIST_HEADER_SIZE {
        e == NtHiveError::InvalidHeaderSize {
            offset: spec_cell_body_start(lo) as usize,
            expected: SUBKEYS_LIST_HEADER_SIZE,
            actual: spec_cell_body_len(b, lo) as usize,
        }
    } else if !(spec_list_is_leaf(b, lo) || spec_list_is_index_root(b, lo)) {
        e matches NtHiveError::InvalidTwoByteSignature { offset, expected, actual } && offset
            == spec_cell_body_start(lo) as usize && expected@ == seq![
            0x6cu8,
            0x66u8,
            0x7cu8,
            0x6cu8,
            0x68u8,
            0x7cu8,
            0x6cu8,
            0x69u8,
            0x7cu8,
            0x72u8,
            0x69u8,
        ] && actual == [spec_list_sig0(b, lo), spec_list_sig1(b, lo)]
    } else if spec_list_is_leaf(b, lo) {
        e == NtHiveError::InvalidSizeField {
            offset: (spec_list_items_start(lo) - 2) as usize,
            expected: (spec_list_count(b, lo) * spec_leaf_items_of_list(b, lo).item_size) as usize,
            actual: (spec_list_body_end(b, lo) - spec_list_items_start(lo)) as usize,
        }
    } else if spec_list_items_start(lo) + spec_list_count(b, lo) * INDEX_ROOT_ITEM_SIZE
        > spec_list_body_end(b, lo) {
        e == NtHiveError::InvalidSizeField {
            offset: (spec_list_items_start(lo) - 2) as usize,
            expected: (spec_list_count(b, lo) * INDEX_ROOT_ITEM_SIZE) as usize,
            actual: (spec_list_body_end(b, lo) - spec_list_items_start(lo)) as usize,
        }
    } else {
        let ri = spec_ri_items_of_list(b, lo);
        exists|k: int|
            {
                &&& 0 <= k < ri.count
                &&& forall|j: int|
                    0 <= j < k ==> spec_ri_leaf_ok(b, (#[trigger] ri.spec_offset(b, j)) as int)
                &&& !spec_ri_leaf_ok(b, (#[trigger] ri.spec_offset(b, k)) as int)
                &&& crate::leaf::spec_ri_leaf_err(b, ri.spec_offset(b, k) as int, e)
            }
    }
}

/// Reads the key-node offsets of every item of the given Leaf table.
pub(crate) fn read_leaf_offsets(hive: &Hive, items: &LeafItemRanges) -> (r: Vec<u32>)
    requires
        hive.wf(),
        items.wf(hive@),
    ensures
        r@ == spec_leaf_offsets_seq(hive@, *items),
{
    let n = hive.bytes.len();
    let count = items.count;
    let mut r: Vec<u32> = Vec::new();
    let mut i: u16 = 0;
    while i < count
        invariant
            hive.wf(),
            items.wf(hive@),
            n == hive@.len(),
            i <= count,
            count == items.count,
            r@ == spec_leaf_offsets_seq(hive@, *items).subrange(0, i as int),
        decreases count - i,
    {
        let item = items.item(i);
        proof {
            assert(((i as int) + 1) * (items.item_size as int) == (i as int) * (items.item_size
                as int) + (items.item_size as int)) by (nonlinear_arith);
            vstd::arithmetic::mul::lemma_mul_inequality(
                i as int + 1,
                count as int,
                items.item_size as int,
            );
        }
        let off = item.key_node_offset(hive);
        r.push(off);
        i = i + 1;
        proof {
            assert(r@ =~= spec_leaf_offsets_seq(hive@, *items).subrange(0, i as int));
        }
    }
    proof {
        assert(spec_leaf_offsets_seq(hive@, *items).subrange(
            0,
            spec_leaf_offsets_seq(hive@, *items).len() as int,
        ) =~= spec_leaf_offsets_seq(hive@, *items));
    }
    r
}

/// Collects the key-node offsets of all direct subkeys reachable through the
/// subkeys list at `list_offset`: the items of a Leaf, or every item of
/// every Leaf referenced by an Index Root, in on-disk order.
pub(crate) fn collect_subkey_offsets(hive: &Hive, list_offset: u32) -> (r: Result<
    Vec<u32>,
    NtHiveError,
>)
    requires
        hive.wf(),
        list_offset != crate::hive::NO_OFFSET,
    ensures
        match r {
            Ok(v) => spec_subkeys_list_wf(hive@, list_offset as int) && v@ == spec_subkey_offsets(
                hive@,
                list_offset as int,
            ),
            Err(e) => !spec_subkeys_list_wf(hive@, list_offset as int) && spec_subkeys_iter_err(
                hive@,
                list_offset as int,
                e,
            ),
        },
{
    let header = parse_subkeys_list(hive, list_offset, true)?;
    match header {
        SubkeysListHeader::Leaf { leaf_type, count, items_start, body_end } => {
            let items = match LeafItemRanges::new(
                count,
                items_start - 2,
                items_start,
                body_end,
                leaf_type,
            ) {
                Ok(it) => it,
                Err(e) => {
                    proof {
                        reveal(spec_leaf_items_of_list);
                    }
                    return Err(e);
                },
            };
            proof {
                reveal(spec_leaf_items_of_list);
                assert(items == spec_leaf_items_of_list(hive@, list_offset as int));
            }
            Ok(read_leaf_offsets(hive, &items))
        },
        SubkeysListHeader::IndexRoot { count, items_start, body_end } => {
            let ri = match IndexRootItemRanges::new(count, items_start - 2, items_start, body_end) {
                Ok(it) => it,
                Err(e) => {
                    return Err(e);
                },
            };
            proof {
                assert(ri == spec_ri_items_of_list(hive@, list_offset as int));
            }
            let n = hive.bytes.len();
            let mut acc: Vec<u32> = Vec::new();
            let mut k: u16 = 0;
            while k < count
                invariant
                    hive.wf(),
                    ri.wf(hive@),
                    n == hive@.len(),
                    k <= count,
                    count == ri.count,
                    ri == spec_ri_items_of_list(hive@, list_offset as int),
                    spec_list_cell_ok(hive@, list_offset as int),
                    spec_list_is_index_root(hive@, list_offset as int),
                    spec_list_items_start(list_offset as int) + spec_list_count(
                        hive@,
                        list_offset as int,
                    ) * INDEX_ROOT_ITEM_SIZE <= spec_list_body_end(hive@, list_offset as int),
                    acc@ == spec_ri_flat_prefix(hive@, ri, k as int),
                    forall|j: int|
                        0 <= j < k ==> spec_ri_leaf_ok(
                            hive@,
                            (#[trigger] ri.spec_offset(hive@, j)) as int,
                        ),
                decreases count - k,
            {
                let item = ri.item(k);
                proof {
                    assert(((k as int) + 1) * 4 == (k as int) * 4 + 4) by (nonlinear_arith);
                    vstd::arithmetic::mul::lemma_mul_inequality(k as int + 1, count as int, 4);
                }
                let leaf_items = match LeafItemRanges::from_index_root_item_range(hive, item) {
                    Ok(it) => it,
                    Err(e) => {
                        proof {
                            assert(!spec_ri_leaf_ok(
                                hive@,
                                (ri.spec_offset(hive@, k as int)) as int,
                            ));
                            assert(!spec_list_is_leaf(hive@, list_offset as int));
                            assert(spec_subkeys_iter_err(hive@, list_offset as int, e)) by {
                                assert({
                                    &&& 0 <= k < ri.count
                                    &&& forall|j: int|
                                        0 <= j < k ==> spec_ri_leaf_ok(
                                            hive@,
                                            (#[trigger] ri.spec_offset(hive@, j)) as int,
                                        )
                                    &&& !spec_ri_leaf_ok(
                                        hive@,
                                        (ri.spec_offset(hive@, k as int)) as int,
                                    )
                                    &&& crate::leaf::spec_ri_leaf_err(
                                        hive@,
                                        ri.spec_offset(hive@, k as int) as int,
                                        e,
                                    )
                                });
                            }
                        }
                        return Err(e);
                    },
                };
                let mut leaf_offsets = read_leaf_offsets(hive, &leaf_items);
                let ghost prev = acc@;
                acc.append(&mut leaf_offsets);
                k = k + 1;
                proof {
                    assert(acc@ =~= spec_ri_flat_prefix(hive@, ri, k as int));
                }
            }
            Ok(acc)
        },
    }
}

/// Iterator over all subkeys of a key node, returning a [`KeyNode`] for each
/// subkey.
///
/// This iterator combines [`IndexRootKeyNodes`] and [`LeafKeyNodes`].
///
/// On-Disk Signatures: `lf`, `lh`, `li`, `ri`
pub enum SubKeyNodes<'a> {
    IndexRoot(IndexRootKeyNodes<'a>),
    Leaf(LeafKeyNodes<'a>),
}

impl<'a> SubKeyNodes<'a> {
    /// True when the iterator's tables lie within its hive's buffer.
    pub open spec fn wf(self) -> bool {
        match self {
            SubKeyNodes::IndexRoot(it) => it.wf(),
            SubKeyNodes::Leaf(it) => it.wf(),
        }
    }

    /// The hive the iterator walks.
    pub open spec fn spec_hive(self) -> Hive<'a> {
        match self {
            SubKeyNodes::IndexRoot(it) => it.hive,
            SubKeyNodes::Leaf(it) => it.hive,
        }
    }

    /// The key-node offsets of all subkeys this iterator yields, in order.
    pub open spec fn spec_offsets(self) -> Seq<u32> {
        match self {
            SubKeyNodes::IndexRoot(it) => it.offsets@,
            SubKeyNodes::Leaf(it) => spec_leaf_offsets_seq(it.hive@, it.items),
        }
    }

    /// Position of the next subkey to yield.
    pub open spec fn spec_index(self) -> int {
        match self {
            SubKeyNodes::IndexRoot(it) => it.index as int,
            SubKeyNodes::Leaf(it) => it.items.index as int,
        }
    }

    /// Builds the subkey iterator over the subkeys list at `list_offset`.
    pub(crate) fn new(hive: Hive<'a>, list_offset: u32) -> (r: Result<SubKeyNodes<'a>, NtHiveError>)
        requires
            hive.wf(),
            list_offset != crate::hive::NO_OFFSET,
        ensures
            match r {
                Ok(it) => {
                    &&& it.wf()
                    &&& it.spec_hive() == hive
                    &&& it.spec_index() == 0
                    &&& spec_subkeys_list_wf(hive@, list_offset as int)
                    &&& it.spec_offsets() == spec_subkey_offsets(hive@, list_offset as int)
                },
                Err(e) => !spec_subkeys_list_wf(hive@, list_offset as int)
                    && spec_subkeys_iter_err(hive@, list_offset as int, e),
            },
    {
        let header = parse_subkeys_list(&hive, list_offset, true)?;
        match header {
            SubkeysListHeader::Leaf { leaf_type, count, items_start, body_end } => {
                let items = match LeafItemRanges::new(
                    count,
                    items_start - 2,
                    items_start,
                    body_end,
                    leaf_type,
                ) {
                    Ok(it) => it,
                    Err(e) => {
                        proof {
                            reveal(spec_leaf_items_of_list);
                        }
                        return Err(e);
                    },
                };
                proof {
                    reveal(spec_leaf_items_of_list);
                    assert(items == spec_leaf_items_of_list(hive@, list_offset as int));
                }
                Ok(SubKeyNodes::Leaf(LeafKeyNodes { hive, items }))
            },
            SubkeysListHeader::IndexRoot { .. } => {
                let offsets = collect_subkey_offsets(&hive, list_offset)?;
                Ok(SubKeyNodes::IndexRoot(IndexRootKeyNodes { hive, offsets, index: 0 }))
            },
        }
    }

    /// The next subkey, in on-disk order, or `None` after the last one.
    ///
    /// A subkey whose record is corrupt yields an error without ending the
    /// iteration.
    pub fn next(&mut self) -> (r: Option<Result<KeyNode<'a>, NtHiveError>>)
        requires
            old(self).wf(),
        ensures
            final(self).wf(),
            final(self).spec_hive() == old(self).spec_hive(),
            final(self).spec_offsets() == old(self).spec_offsets(),
            old(self).spec_index() >= old(self).spec_offsets().len() ==> r is None
                && final(self).spec_index() == old(self).spec_index(),
            old(self).spec_index() < old(self).spec_offsets().len() ==> {
                &&& final(self).spec_index() == old(self).spec_index() + 1
                &&& ({
                    let off = old(self).spec_offsets()[old(self).spec_index()];
                    match r {
                        Some(res) => match res {
                            Ok(kn) => {
                                &&& crate::key_node::spec_nk_ok(old(self).spec_hive()@, off as int)
                                &&& kn == KeyNode::spec_at(old(self).spec_hive(), off as int)
                                &&& kn.wf()
                            },
                            Err(_) => !crate::key_node::spec_nk_ok(
                                old(self).spec_hive()@,
                                off as int,
                            ),
                        },
                        None => false,
                    }
                })
            },
    {
        match self {
            SubKeyNodes::IndexRoot(it) => it.next(),
            SubKeyNodes::Leaf(it) => it.next(),
        }
    }
}

} // verus!
