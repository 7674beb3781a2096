//! Access to keys, values, and data stored in Windows registry *hive* files.
//! Hive files can be found in `C:\Windows\system32\config` and back what is
//! commonly called the Windows registry.
//!
//! A hive is parsed in place: every entity of this crate is a view over a
//! caller-owned byte buffer, located by offsets that have been checked
//! against the buffer's bounds. The contracts of the public functions state,
//! over the raw byte sequence of the hive, which structures are recognized
//! and exactly what each accessor returns.
//!
//! Getting started:
//! 1. Create a [`Hive`] from hive data by calling [`Hive::new`].
//! 2. Retrieve the root [`KeyNode`] via [`Hive::root_key_node`].
//! 3. Move to a subkey via [`KeyNode::subkey`], [`KeyNode::subkeys`] or
//!    [`KeyNode::subpath`].
//! 4. Get an interesting value using [`KeyNode::value`] or
//!    [`KeyNode::values`].

mod big_data;
mod encoding;
mod error;
mod helpers;
mod hive;
mod index_root;
mod key_node;
mod key_value;
mod key_values_list;
mod leaf;
mod string;
mod subkeys_list;

pub use crate::big_data::BigDataSlices;
pub use crate::error::NtHiveError;
pub use crate::helpers::byte_subrange;
pub use crate::hive::{Hive, HiveMinorVersion};
pub use crate::index_root::{IndexRootItemRange, IndexRootItemRanges, IndexRootKeyNodes};
pub use crate::key_node::KeyNode;
pub use crate::key_value::{KeyValue, KeyValueData, KeyValueDataType};
pub use crate::key_values_list::KeyValues;
pub use crate::leaf::{LeafItemRange, LeafItemRanges, LeafKeyNodes, LeafType};
pub use crate::string::{NtHiveNameString, NtHiveString};
pub use crate::subkeys_list::SubKeyNodes;
