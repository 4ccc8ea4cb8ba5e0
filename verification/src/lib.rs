//! Core of a blockchain-archive indexer: the pipeline that takes finalized
//! blocks and storage diffs, enriches blocks with runtime-metadata versions,
//! batches work under a periodic tick, and prepares idempotent inserts for a
//! relational store. The surrounding process (RPC transport, connection
//! pools, timers) hands plain values in and carries the produced actions out.

mod aggregator;
mod combine;
mod db;
mod defer;
mod head_source;
mod laws;
mod metadata_worker;
mod statements;
mod types;

pub use types::Block;
pub use types::BlockV;
pub use types::BatchBlock;
pub use types::StorageChange;
pub use types::StorageChangeV;
pub use types::Metadata;
pub use types::MetadataV;
pub use types::BlockData;
pub use types::block_views;
pub use types::storage_views;

pub use combine::Combo;
pub use combine::Paired;
pub use combine::blocks_of;
pub use combine::storage_of;
pub use combine::paired_seq;
pub use combine::lemma_paired_round_trip;
pub use combine::combine_drained;

pub use aggregator::Aggregator;
pub use aggregator::Dispatch;

pub use db::Database;
pub use db::DatabaseV;
pub use db::InsertV;
pub use db::InsertItem;
pub use db::items_of;
pub use db::block_inserts;
pub use db::storage_inserts;
pub use db::apply;
pub use db::apply_block;
pub use db::apply_meta;
pub use db::apply_storage;
pub use db::replay;
pub use db::has_block_hash;
pub use db::has_block_num;
pub use db::has_meta;
pub use db::storage_conflict;
pub use db::find_storage;
pub use db::merged_storage_row;
pub use db::missing_between;
pub use db::storage_integrity;
pub use db::meta_integrity;
pub use db::lemma_replay_snoc;
pub use db::lemma_replay_append;
pub use db::lemma_find_storage_first;
pub use db::lemma_missing_between_contains;
pub use db::lemma_apply_block_integrity;
pub use db::lemma_apply_meta_integrity;
pub use db::lemma_apply_storage_integrity;
pub use db::lemma_has_block_num_same;
pub use db::lemma_has_meta_same;

pub use metadata_worker::MetadataWorker;
pub use metadata_worker::indexed;
pub use metadata_worker::lemma_meta_present;
pub use metadata_worker::lemma_block_present;
pub use metadata_worker::lemma_has_meta_apply_meta;

pub use head_source::SourceState;
pub use head_source::SourceEvent;
pub use head_source::SourceAction;
pub use head_source::source_step;
pub use head_source::step;
pub use head_source::lemma_shutdown_bounded;
pub use head_source::Scheduler;

pub use defer::ready_part;
pub use defer::deferred_part;
pub use defer::lemma_ready_part_props;
pub use defer::partition_ready;
pub use defer::block_num_bounds;
pub use defer::defer_round;
pub use defer::spec_min_bn;
pub use defer::spec_max_bn;

pub use statements::PARAM_CAP;
pub use statements::SqlValue;
pub use statements::SqlValueV;
pub use statements::Statement;
pub use statements::Batch;
pub use statements::spec_dec;
pub use statements::spec_digit;
pub use statements::value_views;
pub use statements::flat_args;
pub use statements::block_args;
pub use statements::storage_args;
pub use statements::metadata_args;
pub use statements::flat_block_args;
pub use statements::flat_storage_args;
pub use statements::placeholder;
pub use statements::block_tuple_sql;
pub use statements::block_rows_sql;
pub use statements::storage_tuple_sql;
pub use statements::storage_rows_sql;
pub use statements::block_rows_per_statement;
pub use statements::storage_rows_per_statement;
pub use statements::block_insert_statement;
pub use statements::storage_insert_statement;
pub use statements::metadata_insert_statement;
pub use statements::batch_blocks_statements;
pub use statements::batch_storage_statements;

pub use laws::absorbed;
pub use laws::eq_except_full;
pub use laws::writes_key;
pub use laws::has_writer;
pub use laws::equiv_at;
pub use laws::lemma_replay_absorb;
pub use laws::lemma_replay_idempotent;
pub use laws::lemma_release_preserves_integrity;
