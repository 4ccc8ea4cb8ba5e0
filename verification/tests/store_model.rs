//! The store's conflict policies, the missing-blocks probe, the deferred
//! partition and the small schedulers.

use archive_core::Block;
use archive_core::Database;
use archive_core::InsertItem;
use archive_core::Metadata;
use archive_core::Scheduler;
use archive_core::SourceAction;
use archive_core::SourceEvent;
use archive_core::SourceState;
use archive_core::StorageChange;
use archive_core::block_num_bounds;
use archive_core::partition_ready;
use archive_core::step;

fn mk_block(n: u32, spec: u32) -> Block {
    Block {
        parent_hash: vec![0u8; 32],
        hash: vec![n as u8; 32],
        block_num: n,
        state_root: vec![2u8; 32],
        extrinsics_root: vec![3u8; 32],
        digest: vec![4u8],
        ext: vec![5u8],
        spec_version: spec,
    }
}

fn mk_storage(n: u32, key: u8, value: u8, is_full: bool) -> StorageChange {
    StorageChange {
        block_num: n,
        block_hash: vec![n as u8; 32],
        key: vec![key],
        value: Some(vec![value]),
        is_full,
    }
}

/// Blocks and metadata insert-if-absent: a replayed row is a no-op.
#[test]
fn insert_if_absent_is_idempotent() {
    let mut db = Database::new();
    assert!(db.insert_block(&mk_block(1, 1)));
    assert!(!db.insert_block(&mk_block(1, 1)));
    assert_eq!(db.block_count(), 1);

    let m = Metadata { spec_version: 1, blob: vec![1] };
    assert!(db.insert_metadata(&m));
    assert!(!db.insert_metadata(&m));
    assert_eq!(db.metadata_count(), 1);
}

/// The storage upsert keys on (hash, key, value): a colliding row is
/// rewritten in place — only `is_full` can change — and a new value makes a
/// new row.
#[test]
fn storage_upsert_on_unique_key() {
    let mut db = Database::new();
    db.upsert_storage(&mk_storage(1, 10, 20, false));
    db.upsert_storage(&mk_storage(1, 10, 20, true));
    assert_eq!(db.storage_count(), 1);
    assert!(db.storage_at(0).is_full);

    db.upsert_storage(&mk_storage(1, 10, 21, false));
    assert_eq!(db.storage_count(), 2);
}

/// The polymorphic insert dispatches every record kind.
#[test]
fn insert_dispatch() {
    let mut db = Database::new();
    db.insert(&InsertItem::Block(mk_block(1, 1)));
    db.insert(&InsertItem::Metadata(Metadata { spec_version: 1, blob: vec![] }));
    db.insert(&InsertItem::Storage(mk_storage(1, 1, 1, false)));
    db.insert(&InsertItem::StorageBatch(vec![
        mk_storage(1, 2, 2, false),
        mk_storage(1, 3, 3, false),
    ]));
    db.insert(&InsertItem::BatchBlock(archive_core::BatchBlock::new(vec![
        mk_block(1, 1),
        mk_block(9, 1),
    ])));
    assert_eq!(db.block_count(), 2);
    assert_eq!(db.metadata_count(), 1);
    assert_eq!(db.storage_count(), 3);
}

/// Replaying a whole mixed stream leaves the store unchanged.
#[test]
fn replayed_stream_is_absorbed() {
    let stream = || -> Vec<InsertItem> {
        vec![
            InsertItem::Metadata(Metadata { spec_version: 1, blob: vec![1] }),
            InsertItem::Block(mk_block(1, 1)),
            InsertItem::Block(mk_block(2, 1)),
            InsertItem::Storage(mk_storage(1, 1, 1, false)),
            InsertItem::Storage(mk_storage(1, 1, 1, true)),
            InsertItem::Storage(mk_storage(2, 4, 4, false)),
        ]
    };
    let mut db = Database::new();
    for item in stream() {
        db.insert(&item);
    }
    let (b1, s1, m1) = (db.block_count(), db.storage_count(), db.metadata_count());
    let full1: Vec<bool> = (0..s1).map(|i| db.storage_at(i).is_full).collect();
    for item in stream() {
        db.insert(&item);
    }
    assert_eq!(db.block_count(), b1);
    assert_eq!(db.storage_count(), s1);
    assert_eq!(db.metadata_count(), m1);
    let full2: Vec<bool> = (0..s1).map(|i| db.storage_at(i).is_full).collect();
    assert_eq!(full1, full2);
}

/// The generate-series anti-join: numbers of the range without a block row.
#[test]
fn missing_blocks_probe() {
    let mut db = Database::new();
    db.insert_block(&mk_block(1, 1));
    db.insert_block(&mk_block(3, 1));
    db.insert_block(&mk_block(6, 1));
    let missing = db.missing_in_range(1, 6);
    assert_eq!(missing, vec![2, 4, 5]);
}

/// Deferred partition: records split by the missing list, order kept.
#[test]
fn partition_by_missing() {
    let working = vec![
        mk_storage(10, 1, 1, false),
        mk_storage(11, 2, 2, false),
        mk_storage(10, 3, 3, false),
        mk_storage(12, 4, 4, false),
    ];
    let missing = vec![11u32, 12u32];
    let (ready, kept) = partition_ready(working, &missing);
    let rn: Vec<u32> = ready.iter().map(|s| s.block_num).collect();
    let kn: Vec<u32> = kept.iter().map(|s| s.block_num).collect();
    assert_eq!(rn, vec![10, 10]);
    assert_eq!(kn, vec![11, 12]);
}

/// The deferred worker probes the tight range of its working set.
#[test]
fn working_set_bounds() {
    let working = vec![
        mk_storage(7, 1, 1, false),
        mk_storage(3, 2, 2, false),
        mk_storage(5, 3, 3, false),
    ];
    assert_eq!(block_num_bounds(&working), (3, 7));
}

/// A shutdown broadcast is honoured at once, and one more event stops the
/// source for good.
#[test]
fn shutdown_is_bounded() {
    let (state, action) = step(SourceState::Subscribed, SourceEvent::Shutdown);
    assert_eq!(state, SourceState::Draining);
    assert!(matches!(action, SourceAction::DropSubscription));
    let (state, _) = step(state, SourceEvent::Head(1));
    assert_eq!(state, SourceState::Stopped);
    let (state, action) = step(state, SourceEvent::Head(2));
    assert_eq!(state, SourceState::Stopped);
    assert!(matches!(action, SourceAction::Nothing));
}

/// The scheduler rotates round-robin over its workers.
#[test]
fn round_robin_rotation() {
    let mut sched = Scheduler::new(3);
    let picks: Vec<usize> = (0..7).map(|_| sched.tell_next()).collect();
    assert_eq!(picks, vec![0, 1, 2, 0, 1, 2, 0]);
}
