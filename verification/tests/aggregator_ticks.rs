//! The aggregator's queues, drains and dispatch.

use archive_core::Aggregator;
use archive_core::Block;
use archive_core::BlockData;
use archive_core::BatchBlock;
use archive_core::Dispatch;
use archive_core::StorageChange;

fn mk_block(n: u32) -> Block {
    Block {
        parent_hash: vec![0u8; 32],
        hash: vec![n as u8; 32],
        block_num: n,
        state_root: vec![2u8; 32],
        extrinsics_root: vec![3u8; 32],
        digest: vec![4u8],
        ext: vec![5u8],
        spec_version: 1,
    }
}

fn mk_storage(n: u32) -> StorageChange {
    StorageChange {
        block_num: n,
        block_hash: vec![n as u8; 32],
        key: vec![1u8],
        value: Some(vec![2u8]),
        is_full: false,
    }
}

/// Everything queued before a tick — and nothing else — comes out in that
/// tick's combined message, in order; the queues are then empty.
#[test]
fn drain_is_complete() {
    let mut agg = Aggregator::new();
    for n in [3u32, 1, 2] {
        agg.handle_block(mk_block(n));
    }
    for n in [5u32, 4] {
        agg.handle_storage(mk_storage(n));
    }
    let combo = agg.tick();
    let nums: Vec<u32> = combo.blocks.inner.iter().map(|b| b.block_num).collect();
    assert_eq!(nums, vec![3, 1, 2]);
    let snums: Vec<u32> = combo.storage.iter().map(|s| s.block_num).collect();
    assert_eq!(snums, vec![5, 4]);

    let empty = agg.tick();
    assert_eq!(empty.blocks.inner.len(), 0);
    assert_eq!(empty.storage.len(), 0);
}

/// The longer queue's tail survives the pairing: more storage than blocks.
#[test]
fn drain_uneven_more_storage() {
    let mut agg = Aggregator::new();
    agg.handle_block(mk_block(1));
    for n in [10u32, 11, 12, 13] {
        agg.handle_storage(mk_storage(n));
    }
    let combo = agg.tick();
    assert_eq!(combo.blocks.inner.len(), 1);
    let snums: Vec<u32> = combo.storage.iter().map(|s| s.block_num).collect();
    assert_eq!(snums, vec![10, 11, 12, 13]);
}

/// The longer queue's tail survives the pairing: more blocks than storage.
#[test]
fn drain_uneven_more_blocks() {
    let mut agg = Aggregator::new();
    for n in [1u32, 2, 3] {
        agg.handle_block(mk_block(n));
    }
    agg.handle_storage(mk_storage(9));
    let combo = agg.tick();
    let nums: Vec<u32> = combo.blocks.inner.iter().map(|b| b.block_num).collect();
    assert_eq!(nums, vec![1, 2, 3]);
    assert_eq!(combo.storage.len(), 1);
}

/// A single block handed to the aggregator also goes out to the compute
/// pool, unchanged.
#[test]
fn block_announced_to_compute_pool() {
    let mut agg = Aggregator::new();
    let work = agg.handle_block(mk_block(42));
    match work {
        BlockData::Single(b) => {
            assert_eq!(b.block_num, 42);
            assert_eq!(b.hash, vec![42u8; 32]);
        }
        _ => panic!("a single block is announced singly"),
    }
}

/// A batch is enqueued block by block and announced as a batch.
#[test]
fn batch_announced_and_enqueued() {
    let mut agg = Aggregator::new();
    let batch = BatchBlock::new(vec![mk_block(1), mk_block(2)]);
    let work = agg.handle_batch_block(batch);
    match work {
        BlockData::Batch(v) => assert_eq!(v.len(), 2),
        _ => panic!("a batch is announced as a batch"),
    }
    let combo = agg.tick();
    assert_eq!(combo.blocks.inner.len(), 2);
}

/// Dispatch by shape: blocks alone go to the metadata path, storage alone
/// to the sink.
#[test]
fn dispatch_by_shape() {
    let mut agg = Aggregator::new();
    agg.handle_block(mk_block(1));
    let combo = agg.tick();
    assert!(matches!(agg.handle(combo), Dispatch::Blocks(_)));

    agg.handle_storage(mk_storage(2));
    let combo = agg.tick();
    assert!(matches!(agg.handle(combo), Dispatch::Storage(_)));
}
