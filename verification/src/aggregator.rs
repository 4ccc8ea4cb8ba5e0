//! The aggregator: one logical actor owning two unbounded FIFO queues. Each
//! incoming block or storage change is enqueued (blocks are also announced to
//! the external compute pool); on each tick both queues are drained whole into
//! a single combined message, which is then dispatched by shape. A latch bit
//! keeps the "waiting" report from repeating over consecutive empty ticks.

use vstd::prelude::*;
use crate::combine::Combo;
use crate::combine::combine_drained;
use crate::types::BatchBlock;
use crate::types::Block;
use crate::types::BlockData;
use crate::types::StorageChange;

verus! {

/// Where a drained combination must be sent, decided by its shape. The
/// caller performs the sends; `Waiting` carries whether the one-time
/// "waiting on node" report is due.
pub enum Dispatch {
    Waiting { report: bool },
    Blocks(BatchBlock),
    Storage(Vec<StorageChange>),
    Both(BatchBlock, Vec<StorageChange>),
}

/// Buffers blocks and storage changes between ticks.
pub struct Aggregator {
    block_queue: Vec<Block>,
    storage_queue: Vec<StorageChange>,
    last_count_was_0: bool,
}

impl Aggregator {
    /// What the block queue holds, oldest first.
    pub closed spec fn blocks(&self) -> Seq<Block> {
        self.block_queue@
    }

    /// What the storage queue holds, oldest first.
    pub closed spec fn storage(&self) -> Seq<StorageChange> {
        self.storage_queue@
    }

    /// Whether the last tick found both queues empty (suppresses repeated
    /// "waiting" reports).
    pub closed spec fn latched(&self) -> bool {
        self.last_count_was_0
    }

    /// A fresh aggregator: both queues empty, latch clear.
    pub fn new() -> (r: Self)
        ensures
            r.blocks() == Seq::<Block>::empty(),
            r.storage() == Seq::<StorageChange>::empty(),
            !r.latched(),
    {
        Aggregator { block_queue: Vec::new(), storage_queue: Vec::new(), last_count_was_0: false }
    }

    /// A storage change arriving from the diff producer: enqueued, nothing
    /// else moves.
    pub fn handle_storage(&mut self, change: StorageChange)
        ensures
            final(self).storage() == old(self).storage().push(change),
            final(self).blocks() == old(self).blocks(),
            final(self).latched() == old(self).latched(),
    {
        self.storage_queue.push(change);
    }

    /// A single block arriving from the metadata path: enqueued, and a copy
    /// is handed back as work for the external compute pool.
    pub fn handle_block(&mut self, block: Block) -> (work: BlockData)
        ensures
            final(self).blocks() == old(self).blocks().push(block),
            final(self).storage() == old(self).storage(),
            final(self).latched() == old(self).latched(),
            work matches BlockData::Single(b) && b@ == block@,
    {
        let copy = block.clone();
        self.block_queue.push(block);
        BlockData::Single(copy)
    }

    /// A batch of blocks: each is enqueued in order, and a copy of the run is
    /// handed back as batch work for the external compute pool.
    pub fn handle_batch_block(&mut self, blocks: BatchBlock) -> (work: BlockData)
        ensures
            final(self).blocks() == old(self).blocks() + blocks.inner@,
            final(self).storage() == old(self).storage(),
            final(self).latched() == old(self).latched(),
            work matches BlockData::Batch(v) && v@.len() == blocks.inner@.len()
                && (forall|i: int| 0 <= i < v@.len() ==> v@[i]@ == blocks.inner@[i]@),
    {
        let mut copy: Vec<Block> = Vec::new();
        let mut rest = blocks.inner;
        let ghost incoming = rest@;
        while rest.len() > 0
            invariant
                rest@.len() <= incoming.len(),
                rest@ == incoming.skip(incoming.len() - rest@.len()),
                self.block_queue@ == old(self).block_queue@
                    + incoming.take(incoming.len() - rest@.len()),
                self.storage_queue == old(self).storage_queue,
                self.last_count_was_0 == old(self).last_count_was_0,
                copy@.len() == incoming.len() - rest@.len(),
                forall|j: int| 0 <= j < copy@.len() ==> copy@[j]@ == incoming[j]@,
            decreases rest@.len(),
        {
            let ghost done = incoming.len() - rest@.len();
            let b = rest.remove(0);
            proof {
                assert(b == incoming[done]);
                assert(rest@ =~= incoming.skip(done + 1));
                assert(incoming.take(done + 1) =~= incoming.take(done).push(incoming[done]));
            }
            copy.push(b.clone());
            self.block_queue.push(b);
            proof {
                assert(self.block_queue@ =~= old(self).block_queue@ + incoming.take(done + 1));
            }
        }
        proof {
            assert(incoming.take(incoming.len() - rest@.len()) =~= incoming);
        }
        BlockData::Batch(copy)
    }

    /// One tick: both queues are drained whole — exactly what was present at
    /// tick start, in order, and nothing else — into one combined message.
    pub fn tick(&mut self) -> (combo: Combo)
        ensures
            combo.blocks.inner@ == old(self).blocks(),
            combo.storage@ == old(self).storage(),
            final(self).blocks() == Seq::<Block>::empty(),
            final(self).storage() == Seq::<StorageChange>::empty(),
            final(self).latched() == old(self).latched(),
    {
        let mut blocks: Vec<Block> = Vec::new();
        let mut storage: Vec<StorageChange> = Vec::new();
        core::mem::swap(&mut blocks, &mut self.block_queue);
        core::mem::swap(&mut storage, &mut self.storage_queue);
        combine_drained(storage, blocks)
    }

    /// Dispatch of a drained combination by its shape: blocks go to the
    /// metadata path, storage to the database sink, an empty tick reports
    /// "waiting" once until work appears again.
    pub fn handle(&mut self, data: Combo) -> (d: Dispatch)
        ensures
            final(self).blocks() == old(self).blocks(),
            final(self).storage() == old(self).storage(),
            data.blocks.inner@.len() == 0 && data.storage@.len() == 0 ==> {
                &&& d matches Dispatch::Waiting { report } && report == !old(self).latched()
                &&& final(self).latched()
            },
            data.blocks.inner@.len() > 0 && data.storage@.len() == 0 ==> {
                &&& d matches Dispatch::Blocks(b) && b == data.blocks
                &&& !final(self).latched()
            },
            data.blocks.inner@.len() == 0 && data.storage@.len() > 0 ==> {
                &&& d matches Dispatch::Storage(s) && s == data.storage
                &&& !final(self).latched()
            },
            data.blocks.inner@.len() > 0 && data.storage@.len() > 0 ==> {
                &&& d matches Dispatch::Both(b, s) && b == data.blocks && s == data.storage
                &&& !final(self).latched()
            },
    {
        let b = data.blocks.inner.len();
        let s = data.storage.len();
        if b == 0 && s == 0 {
            let report = !self.last_count_was_0;
            self.last_count_was_0 = true;
            Dispatch::Waiting { report }
        } else if s == 0 {
            self.last_count_was_0 = false;
            Dispatch::Blocks(data.blocks)
        } else if b == 0 {
            self.last_count_was_0 = false;
            Dispatch::Storage(data.storage)
        } else {
            self.last_count_was_0 = false;
            Dispatch::Both(data.blocks, data.storage)
        }
    }
}

} // verus!
