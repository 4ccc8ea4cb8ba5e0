//! The sink's statements: exact texts, exact parameters, and the cap.

use archive_core::Batch;
use archive_core::Block;
use archive_core::Metadata;
use archive_core::PARAM_CAP;
use archive_core::SqlValue;
use archive_core::StorageChange;
use archive_core::batch_blocks_statements;
use archive_core::batch_storage_statements;
use archive_core::block_insert_statement;
use archive_core::metadata_insert_statement;
use archive_core::storage_insert_statement;
use archive_core::BatchBlock;

fn mk_block(n: u32, spec: u32) -> Block {
    Block {
        parent_hash: vec![1u8; 32],
        hash: vec![n as u8; 32],
        block_num: n,
        state_root: vec![2u8; 32],
        extrinsics_root: vec![3u8; 32],
        digest: vec![4u8],
        ext: vec![5u8],
        spec_version: spec,
    }
}

fn mk_storage(n: u32, key: u8) -> StorageChange {
    StorageChange {
        block_num: n,
        block_hash: vec![n as u8; 32],
        key: vec![key],
        value: Some(vec![7u8]),
        is_full: false,
    }
}

#[test]
fn block_statement_text_and_args() {
    let st = block_insert_statement(&mk_block(7, 3));
    assert_eq!(
        st.sql,
        "INSERT INTO blocks (parent_hash, hash, block_num, state_root, extrinsics_root, digest, ext, spec) VALUES ($1, $2, $3, $4, $5, $6, $7, $8) ON CONFLICT DO NOTHING"
    );
    assert_eq!(st.args.len(), 8);
    assert!(matches!(&st.args[2], SqlValue::U32(7)));
    assert!(matches!(&st.args[7], SqlValue::U32(3)));
    match &st.args[1] {
        SqlValue::Bytes(h) => assert_eq!(h, &vec![7u8; 32]),
        _ => panic!("hash binds as bytes"),
    }
}

/// The single-row storage upsert uses `$1`, never a malformed placeholder.
#[test]
fn storage_statement_placeholder_syntax() {
    let st = storage_insert_statement(&mk_storage(9, 1));
    assert!(st.sql.contains("VALUES ($1, $2, $3, $4, $5)"));
    assert!(!st.sql.contains('#'));
    assert_eq!(st.args.len(), 5);
    assert!(matches!(&st.args[0], SqlValue::U32(9)));
    assert!(matches!(&st.args[2], SqlValue::Bool(false)));
}

#[test]
fn metadata_statement_text_and_args() {
    let st = metadata_insert_statement(&Metadata { spec_version: 4, blob: vec![1, 2, 3] });
    assert_eq!(
        st.sql,
        "INSERT INTO metadata (version, meta) VALUES ($1, $2) ON CONFLICT DO NOTHING"
    );
    assert_eq!(st.args.len(), 2);
    assert!(matches!(&st.args[0], SqlValue::U32(4)));
}

#[test]
fn batched_blocks_render_tuples() {
    let bb = BatchBlock::new(vec![mk_block(1, 1), mk_block(2, 1)]);
    let stmts = batch_blocks_statements(&bb);
    assert_eq!(stmts.len(), 1);
    assert_eq!(stmts[0].args.len(), 16);
    assert!(stmts[0].sql.starts_with(
        "INSERT INTO blocks (parent_hash, hash, block_num, state_root, extrinsics_root, digest, ext, spec) VALUES "
    ));
    assert!(stmts[0].sql.contains("($1,$2,$3,$4,$5,$6,$7,$8),($9,$10,$11,$12,$13,$14,$15,$16)"));
    assert!(stmts[0].sql.ends_with(" ON CONFLICT DO NOTHING"));
}

/// Over a sweep of input sizes no emitted statement carries more bound
/// parameters than the cap, and none of the parameters is lost.
#[test]
fn batch_never_exceeds_param_cap() {
    for n in [0usize, 1, 3, 13106, 13107, 13108, 14000] {
        let mut rows: Vec<StorageChange> = Vec::new();
        for i in 0..n {
            rows.push(mk_storage(i as u32, (i % 251) as u8));
        }
        let stmts = batch_storage_statements(&rows);
        let mut total = 0usize;
        for st in stmts.iter() {
            assert!(st.args.len() <= PARAM_CAP);
            assert!(st.args.len() % 5 == 0);
            total += st.args.len();
        }
        assert_eq!(total, 5 * n);
        if n > 0 {
            assert_eq!(stmts.len(), (5 * n + PARAM_CAP - 1) / (PARAM_CAP / 5 * 5));
        } else {
            assert_eq!(stmts.len(), 0);
        }
        for st in stmts.iter() {
            assert!(st.sql.starts_with(
                "INSERT INTO storage (block_num, hash, is_full, key, storage) VALUES ($1,$2,$3,$4,$5)"
            ));
            assert!(st.sql.ends_with(
                " ON CONFLICT (hash, key, md5(storage)) DO UPDATE SET hash = EXCLUDED.hash, key = EXCLUDED.key, storage = EXCLUDED.storage, is_full = EXCLUDED.is_full"
            ));
        }
        if stmts.len() > 1 {
            assert_eq!(stmts[0].args.len(), PARAM_CAP);
        }
    }
}

#[test]
fn batch_builder_flushes_at_cap() {
    let mut b = Batch::new("INSERT INTO t (x) VALUES ", "");
    for i in 0..(PARAM_CAP + 1) {
        b.reserve(1);
        if b.current_num_arguments() > 0 {
            b.append(",");
        }
        b.append("(");
        b.bind(SqlValue::U32(i as u32));
        b.append(")");
    }
    let stmts = b.finish();
    assert_eq!(stmts.len(), 2);
    assert_eq!(stmts[0].args.len(), PARAM_CAP);
    assert_eq!(stmts[1].args.len(), 1);
}
