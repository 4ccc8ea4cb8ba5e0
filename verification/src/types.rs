//! The data that flows through the pipeline: blocks, storage changes and
//! runtime metadata, with mathematical views for contracts.

use vstd::prelude::*;

verus! {

/// A finalized block as the `blocks` table stores it: header fields plus the
/// already-encoded digest and extrinsics, and the runtime spec version active
/// at this height.
pub struct Block {
    pub parent_hash: Vec<u8>,
    pub hash: Vec<u8>,
    pub block_num: u32,
    pub state_root: Vec<u8>,
    pub extrinsics_root: Vec<u8>,
    pub digest: Vec<u8>,
    pub ext: Vec<u8>,
    pub spec_version: u32,
}

/// Mathematical view of a `Block`.
#[verifier::ext_equal]
pub struct BlockV {
    pub parent_hash: Seq<u8>,
    pub hash: Seq<u8>,
    pub block_num: u32,
    pub state_root: Seq<u8>,
    pub extrinsics_root: Seq<u8>,
    pub digest: Seq<u8>,
    pub ext: Seq<u8>,
    pub spec_version: u32,
}

impl View for Block {
    type V = BlockV;

    open spec fn view(&self) -> BlockV {
        BlockV {
            parent_hash: self.parent_hash@,
            hash: self.hash@,
            block_num: self.block_num,
            state_root: self.state_root@,
            extrinsics_root: self.extrinsics_root@,
            digest: self.digest@,
            ext: self.ext@,
            spec_version: self.spec_version,
        }
    }
}

impl Clone for Block {
    fn clone(&self) -> (r: Self)
        ensures
            r@ == self@,
    {
        Block {
            parent_hash: self.parent_hash.clone(),
            hash: self.hash.clone(),
            block_num: self.block_num,
            state_root: self.state_root.clone(),
            extrinsics_root: self.extrinsics_root.clone(),
            digest: self.digest.clone(),
            ext: self.ext.clone(),
            spec_version: self.spec_version,
        }
    }
}

/// The views of a sequence of blocks, in order.
pub open spec fn block_views(s: Seq<Block>) -> Seq<BlockV> {
    s.map_values(|b: Block| b@)
}

/// An ordered run of blocks treated as one insertion unit.
pub struct BatchBlock {
    pub inner: Vec<Block>,
}

impl BatchBlock {
    pub fn new(inner: Vec<Block>) -> (r: Self)
        ensures
            r.inner@ == inner@,
    {
        BatchBlock { inner }
    }

    pub fn len(&self) -> (r: usize)
        ensures
            r == self.inner@.len(),
    {
        self.inner.len()
    }
}

/// One key/value mutation of chain storage, referencing its block by number
/// and hash. `is_full` marks a complete snapshot rather than a diff.
pub struct StorageChange {
    pub block_num: u32,
    pub block_hash: Vec<u8>,
    pub key: Vec<u8>,
    pub value: Option<Vec<u8>>,
    pub is_full: bool,
}

/// Mathematical view of a `StorageChange`.
#[verifier::ext_equal]
pub struct StorageChangeV {
    pub block_num: u32,
    pub block_hash: Seq<u8>,
    pub key: Seq<u8>,
    pub value: Option<Seq<u8>>,
    pub is_full: bool,
}

impl View for StorageChange {
    type V = StorageChangeV;

    open spec fn view(&self) -> StorageChangeV {
        StorageChangeV {
            block_num: self.block_num,
            block_hash: self.block_hash@,
            key: self.key@,
            value: match self.value {
                Option::Some(v) => Option::Some(v@),
                Option::None => Option::None,
            },
            is_full: self.is_full,
        }
    }
}

impl Clone for StorageChange {
    fn clone(&self) -> (r: Self)
        ensures
            r@ == self@,
    {
        StorageChange {
            block_num: self.block_num,
            block_hash: self.block_hash.clone(),
            key: self.key.clone(),
            value: match &self.value {
                Option::Some(v) => Option::Some(v.clone()),
                Option::None => Option::None,
            },
            is_full: self.is_full,
        }
    }
}

/// The views of a sequence of storage changes, in order.
pub open spec fn storage_views(s: Seq<StorageChange>) -> Seq<StorageChangeV> {
    s.map_values(|c: StorageChange| c@)
}

/// The raw runtime metadata for one spec version.
pub struct Metadata {
    pub spec_version: u32,
    pub blob: Vec<u8>,
}

/// Mathematical view of a `Metadata`.
#[verifier::ext_equal]
pub struct MetadataV {
    pub spec_version: u32,
    pub blob: Seq<u8>,
}

impl View for Metadata {
    type V = MetadataV;

    open spec fn view(&self) -> MetadataV {
        MetadataV { spec_version: self.spec_version, blob: self.blob@ }
    }
}

/// Work handed to the external compute pool that produces storage diffs.
pub enum BlockData {
    Single(Block),
    Batch(Vec<Block>),
}

} // verus!
