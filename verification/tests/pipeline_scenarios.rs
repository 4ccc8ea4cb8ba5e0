//! End-to-end runs of the pipeline's components over the in-memory store.

use archive_core::Aggregator;
use archive_core::Block;
use archive_core::Database;
use archive_core::Dispatch;
use archive_core::MetadataWorker;
use archive_core::SourceAction;
use archive_core::SourceEvent;
use archive_core::SourceState;
use archive_core::StorageChange;
use archive_core::defer_round;
use archive_core::step;

fn mk_block(n: u32, spec: u32) -> Block {
    Block {
        parent_hash: vec![n.wrapping_sub(1) as u8; 32],
        hash: vec![n as u8; 32],
        block_num: n,
        state_root: vec![2u8; 32],
        extrinsics_root: vec![3u8; 32],
        digest: vec![4u8, 5u8],
        ext: vec![6u8, 7u8, 8u8],
        spec_version: spec,
    }
}

fn mk_storage(n: u32, key: u8, value: u8) -> StorageChange {
    StorageChange {
        block_num: n,
        block_hash: vec![n as u8; 32],
        key: vec![key],
        value: Some(vec![value]),
        is_full: false,
    }
}

/// One head with its body present and a previously unseen spec version:
/// after quiescence the store holds that metadata row and that block,
/// and no storage row.
#[test]
fn single_block() {
    let mut db = Database::new();
    let mut worker = MetadataWorker::new();

    let (state, action) = step(SourceState::Connecting, SourceEvent::Connected);
    assert_eq!(state, SourceState::Subscribed);
    assert!(matches!(action, SourceAction::AwaitHead));

    let (state, action) = step(state, SourceEvent::Head(100));
    assert_eq!(state, SourceState::Subscribed);
    assert!(matches!(action, SourceAction::LookupBody(100)));

    let block = mk_block(100, 1);
    let (state, action) = step(
        state,
        SourceEvent::Body { number: 100, block: Some(block) },
    );
    assert_eq!(state, SourceState::Subscribed);
    let dispatched = match action {
        SourceAction::DispatchBlock(b) => b,
        _ => panic!("body present must dispatch"),
    };

    let fetched = if worker.needs_fetch(dispatched.spec_version) {
        Some(vec![9u8, 9u8])
    } else {
        None
    };
    assert!(fetched.is_some());
    worker.index_block(&mut db, &dispatched, fetched);

    assert_eq!(db.metadata_count(), 1);
    assert!(db.contains_meta_version(1));
    assert_eq!(db.block_count(), 1);
    assert!(db.contains_block_num(100));
    assert_eq!(db.storage_count(), 0);
}

/// A block and a storage change arriving between two ticks: the tick sends
/// one block batch and one storage batch, and both rows are persisted.
#[test]
fn blocks_and_storage_same_tick() {
    let mut db = Database::new();
    let mut worker = MetadataWorker::new();
    let mut agg = Aggregator::new();

    agg.handle_block(mk_block(101, 1));
    agg.handle_storage(mk_storage(101, 10, 20));

    let combo = agg.tick();
    assert_eq!(combo.blocks.inner.len(), 1);
    assert_eq!(combo.storage.len(), 1);

    match agg.handle(combo) {
        Dispatch::Both(blocks, storage) => {
            for b in blocks.inner.iter() {
                let fetched = if worker.needs_fetch(b.spec_version) {
                    Some(vec![9u8])
                } else {
                    None
                };
                worker.index_block(&mut db, b, fetched);
            }
            db.upsert_storage_batch(&storage);
        }
        _ => panic!("a tick with blocks and storage dispatches both"),
    }

    assert_eq!(db.block_count(), 1);
    assert_eq!(db.storage_count(), 1);
    assert!(db.contains_block_num(101));
}

/// Storage arriving before its block: the first deferred round keeps the
/// record; once the block is indexed, the next round releases it.
#[test]
fn storage_before_block() {
    let mut db = Database::new();
    let mut worker = MetadataWorker::new();

    let pending = vec![mk_storage(200, 1, 2)];
    let remaining = defer_round(&mut db, pending);
    assert_eq!(remaining.len(), 1);
    assert_eq!(db.storage_count(), 0);

    let block = mk_block(200, 1);
    let fetched = if worker.needs_fetch(block.spec_version) {
        Some(vec![9u8])
    } else {
        None
    };
    worker.index_block(&mut db, &block, fetched);

    let remaining = defer_round(&mut db, remaining);
    assert_eq!(remaining.len(), 0);
    assert_eq!(db.storage_count(), 1);
    assert!(db.contains_block_num(200));
}

/// Feeding the single-block scenario twice leaves exactly one row in
/// `blocks` and one in `metadata`.
#[test]
fn duplicate_replay() {
    let mut db = Database::new();
    let mut worker = MetadataWorker::new();
    for _ in 0..2 {
        let block = mk_block(100, 1);
        let fetched = if worker.needs_fetch(block.spec_version) {
            Some(vec![9u8, 9u8])
        } else {
            None
        };
        worker.index_block(&mut db, &block, fetched);
    }
    assert_eq!(db.block_count(), 1);
    assert_eq!(db.metadata_count(), 1);
    assert_eq!(db.storage_count(), 0);
}

/// A dropped subscription after fifty heads: the source fails for its
/// supervisor, a fresh source resubscribes, and replaying the same heads
/// adds no duplicate rows.
#[test]
fn node_disconnect_mid_run() {
    let mut db = Database::new();
    let mut worker = MetadataWorker::new();

    let mut state = SourceState::Subscribed;
    for n in 0..50u32 {
        let (s, action) = step(
            state,
            SourceEvent::Body { number: n, block: Some(mk_block(n, 1)) },
        );
        state = s;
        match action {
            SourceAction::DispatchBlock(b) => {
                let fetched = if worker.needs_fetch(b.spec_version) {
                    Some(vec![9u8])
                } else {
                    None
                };
                worker.index_block(&mut db, &b, fetched);
            }
            _ => panic!("body present must dispatch"),
        }
    }
    assert_eq!(db.block_count(), 50);

    let (state, action) = step(state, SourceEvent::SubscriptionError);
    assert_eq!(state, SourceState::Failed);
    assert!(matches!(action, SourceAction::ReportFailure));

    // the supervisor starts a fresh source
    let (mut state, _) = step(SourceState::Connecting, SourceEvent::Connected);
    assert_eq!(state, SourceState::Subscribed);
    for n in 0..50u32 {
        let (s, action) = step(
            state,
            SourceEvent::Body { number: n, block: Some(mk_block(n, 1)) },
        );
        state = s;
        match action {
            SourceAction::DispatchBlock(b) => {
                let fetched = if worker.needs_fetch(b.spec_version) {
                    Some(vec![9u8])
                } else {
                    None
                };
                worker.index_block(&mut db, &b, fetched);
            }
            _ => panic!("body present must dispatch"),
        }
    }
    assert_eq!(db.block_count(), 50);
    assert_eq!(db.metadata_count(), 1);
}

/// Five empty ticks report "waiting" exactly once; the latch resets on the
/// next non-empty tick.
#[test]
fn empty_tick_latch() {
    let mut agg = Aggregator::new();
    let mut reports = 0usize;
    for _ in 0..5 {
        let combo = agg.tick();
        match agg.handle(combo) {
            Dispatch::Waiting { report } => {
                if report {
                    reports += 1;
                }
            }
            _ => panic!("empty ticks wait"),
        }
    }
    assert_eq!(reports, 1);

    agg.handle_block(mk_block(1, 1));
    let combo = agg.tick();
    assert!(matches!(agg.handle(combo), Dispatch::Blocks(_)));

    let combo = agg.tick();
    assert!(matches!(agg.handle(combo), Dispatch::Waiting { report: true }));
}
