//! The metadata worker: before a block reaches the sink, the runtime
//! metadata for its spec version must be a row of the store. The worker keeps
//! a cache of versions it has already handled; on first sight of a version
//! the caller fetches the metadata blob over RPC and hands it in, and the row
//! is inserted strictly before the block. That order is what keeps every
//! persisted block's spec version resolvable.

use vstd::prelude::*;
use crate::db::Database;
use crate::db::DatabaseV;
use crate::db::apply_block;
use crate::db::apply_meta;
use crate::db::has_block_hash;
use crate::db::has_meta;
use crate::db::lemma_apply_block_integrity;
use crate::db::lemma_apply_meta_integrity;
use crate::db::lemma_has_meta_same;
use crate::db::meta_integrity;
use crate::db::storage_integrity;
use crate::types::Block;
use crate::types::BlockV;
use crate::types::Metadata;
use crate::types::MetadataV;

verus! {

/// The store a metadata-first insertion leaves behind: the metadata row when
/// the version was new, then the block row.
pub open spec fn indexed(d: DatabaseV, b: Block, fetched: Option<Vec<u8>>, known: bool) -> DatabaseV {
    let with_meta = if known {
        d
    } else {
        apply_meta(
            d,
            MetadataV { spec_version: b.spec_version, blob: fetched->Some_0@ },
        )
    };
    apply_block(with_meta, b@)
}

/// Cache of spec versions this worker has already seen to a metadata row.
pub struct MetadataWorker {
    known: Vec<u32>,
}

impl MetadataWorker {
    /// The versions the worker believes present.
    pub closed spec fn known_versions(&self) -> Seq<u32> {
        self.known@
    }

    /// The cache is sound for a store: every version it holds has a row.
    pub open spec fn cache_ok(&self, d: DatabaseV) -> bool {
        forall|i: int| 0 <= i < self.known_versions().len() ==> has_meta(
            d,
            self.known_versions()[i],
        )
    }

    /// A fresh worker with an empty cache, sound for any store.
    pub fn new() -> (r: Self)
        ensures
            r.known_versions() == Seq::<u32>::empty(),
    {
        MetadataWorker { known: Vec::new() }
    }

    /// Whether a fetch is needed before indexing a block of this version.
    pub fn needs_fetch(&self, version: u32) -> (r: bool)
        ensures
            r == !self.known_versions().contains(version),
    {
        let n = self.known.len();
        let mut i: usize = 0;
        while i < n
            invariant
                n == self.known@.len(),
                i <= n,
                forall|j: int| 0 <= j < i ==> self.known@[j] != version,
            decreases n - i,
        {
            if self.known[i] == version {
                return false;
            }
            i += 1;
        }
        true
    }

    /// Indexes one block: when its spec version is unseen, the fetched
    /// metadata blob is inserted first; the block row follows. Metadata
    /// integrity of the store is thereby preserved — no block row ever
    /// appears without its version's metadata row.
    pub fn index_block(&mut self, db: &mut Database, block: &Block, fetched: Option<Vec<u8>>)
        requires
            !old(self).known_versions().contains(block.spec_version) ==> fetched is Some,
            old(self).cache_ok(old(db)@),
        ensures
            final(db)@ == indexed(
                old(db)@,
                *block,
                fetched,
                old(self).known_versions().contains(block.spec_version),
            ),
            has_meta(final(db)@, block.spec_version),
            has_block_hash(final(db)@, block@.hash),
            final(self).cache_ok(final(db)@),
            final(self).known_versions() == if old(self).known_versions().contains(
                block.spec_version,
            ) {
                old(self).known_versions()
            } else {
                old(self).known_versions().push(block.spec_version)
            },
            meta_integrity(old(db)@) ==> meta_integrity(final(db)@),
            storage_integrity(old(db)@) ==> storage_integrity(final(db)@),
    {
        let known = !self.needs_fetch(block.spec_version);
        if !known {
            match fetched {
                Option::Some(blob) => {
                    let m = Metadata { spec_version: block.spec_version, blob };
                    db.insert_metadata(&m);
                    self.known.push(block.spec_version);
                    proof {
                        lemma_apply_meta_integrity(old(db)@, m@);
                        lemma_meta_present(old(db)@, m@);
                        assert forall|i: int| 0 <= i < self.known_versions().len() implies
                            has_meta(db@, self.known_versions()[i]) by {
                            if i < old(self).known_versions().len() {
                                assert(has_meta(old(db)@, old(self).known_versions()[i]));
                                lemma_has_meta_apply_meta(old(db)@, m@, old(
                                    self,
                                ).known_versions()[i]);
                            }
                        }
                    }
                }
                Option::None => {
                    proof {
                        assert(false);
                    }
                }
            }
        } else {
            proof {
                let k = choose|k: int| 0 <= k < old(self).known_versions().len() && old(
                    self,
                ).known_versions()[k] == block.spec_version;
                assert(has_meta(db@, old(self).known_versions()[k]));
                assert(has_meta(db@, block.spec_version));
            }
        }
        let ghost mid = db@;
        db.insert_block(block);
        proof {
            lemma_apply_block_integrity(mid, block@);
            lemma_block_present(mid, block@);
            assert forall|i: int| 0 <= i < self.known_versions().len() implies has_meta(
                db@,
                self.known_versions()[i],
            ) by {
                lemma_has_meta_same(mid, db@, self.known_versions()[i]);
            }
            lemma_has_meta_same(mid, db@, block.spec_version);
        }
    }
}

/// After inserting a metadata row its version is present.
pub proof fn lemma_meta_present(d: DatabaseV, m: MetadataV)
    ensures
        has_meta(apply_meta(d, m), m.spec_version),
{
    let e = apply_meta(d, m);
    if !has_meta(d, m.spec_version) {
        assert(e.metadata[d.metadata.len() as int] == m);
    } else {
        let k = choose|k: int| 0 <= k < d.metadata.len() && d.metadata[k].spec_version
            == m.spec_version;
        assert(e.metadata[k].spec_version == m.spec_version);
    }
}

/// After inserting a block row its hash is present.
pub proof fn lemma_block_present(d: DatabaseV, b: BlockV)
    ensures
        has_block_hash(apply_block(d, b), b.hash),
{
    let e = apply_block(d, b);
    if !has_block_hash(d, b.hash) {
        assert(e.blocks[d.blocks.len() as int] == b);
    } else {
        let k = choose|k: int| 0 <= k < d.blocks.len() && d.blocks[k].hash == b.hash;
        assert(e.blocks[k].hash == b.hash);
    }
}

/// A metadata version stays present when another metadata row is inserted.
pub proof fn lemma_has_meta_apply_meta(d: DatabaseV, m: MetadataV, v: u32)
    requires
        has_meta(d, v),
    ensures
        has_meta(apply_meta(d, m), v),
{
    let e = apply_meta(d, m);
    let k = choose|k: int| 0 <= k < d.metadata.len() && d.metadata[k].spec_version == v;
    assert(e.metadata[k].spec_version == v);
}

} // verus!
