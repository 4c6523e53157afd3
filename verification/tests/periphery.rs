//! Configuration defaults, the manager's state machine, pipeline sizing,
//! and the ledger store's rules.

use shard_state_sync::ledger_store::EpochState;
use shard_state_sync::ledger_store::LedgerInfoWithSignatures;
use shard_state_sync::ledger_store::LedgerStore;
use shard_state_sync::ledger_store::LedgerStoreError;
use shard_state_sync::ledger_store::TransactionInfo;
use shard_state_sync::mpc::MpcState;
use shard_state_sync::mpc::MPCEvent;
use shard_state_sync::mpc_config::MPCConfig;
use shard_state_sync::mpc_manager::MpcAction;
use shard_state_sync::mpc_manager::MpcManagerError;
use shard_state_sync::mpc_manager::MPCManager;
use shard_state_sync::pipeline::commit_channel_bound;
use shard_state_sync::pipeline::executable_block_channel_bound;
use shard_state_sync::pipeline::ledger_update_channel_bound;
use shard_state_sync::pipeline::raw_block_channel_bound;
use shard_state_sync::pipeline::ExecutionStageAccounting;
use shard_state_sync::pipeline::PipelineConfig;

fn li(epoch: u64, version: u64, has_next_epoch_state: bool) -> LedgerInfoWithSignatures {
    LedgerInfoWithSignatures { epoch, version, has_next_epoch_state }
}

#[test]
fn mpc_config_default_channel_size() {
    assert_eq!(MPCConfig::default().max_network_channel_size, 256);
}

#[test]
fn mpc_state_default_is_empty() {
    let state = MpcState::default();
    assert!(state.shared_secrets.is_empty());
    assert!(state.tasks.is_empty());
}

#[test]
fn mpc_event_carries_its_payload() {
    assert_eq!(MPCEvent::new(5).payload(), 5);
}

#[test]
fn manager_holds_at_most_one_guard() {
    let mut manager = MPCManager::new(0, vec![0xAA; 32], 2);
    assert!(manager.is_running());
    assert_eq!(manager.process_mpc_event(MPCEvent::new(1)), Ok(MpcAction::SubmitStateUpdate));
    assert_eq!(
        manager.process_mpc_event(MPCEvent::new(2)),
        Err(MpcManagerError::GuardAlreadyHeld)
    );
}

#[test]
fn manager_stops_on_close_and_acknowledges() {
    let mut manager = MPCManager::new(3, vec![1; 32], 1);
    assert!(manager.process_close_cmd(true));
    assert!(!manager.is_running());
    let mut silent = MPCManager::new(4, vec![2; 32], 1);
    assert!(!silent.process_close_cmd(false));
    assert!(!silent.is_running());
}

#[test]
fn pipeline_default_config() {
    let config = PipelineConfig::default();
    assert!(!config.delay_execution_start);
    assert!(!config.split_stages);
    assert!(!config.skip_commit);
    assert_eq!(config.num_executor_shards, 0);
    assert_eq!(config.num_generator_workers, 4);
}

#[test]
fn pipeline_channel_bounds() {
    let config = PipelineConfig::default();
    assert_eq!(raw_block_channel_bound(&config, None), 200);
    assert_eq!(ledger_update_channel_bound(&config, None), 200);
    assert_eq!(commit_channel_bound(&config, None), 200);
    assert_eq!(executable_block_channel_bound(), 200);

    let mut delayed = PipelineConfig::default();
    delayed.delay_execution_start = true;
    assert_eq!(raw_block_channel_bound(&delayed, Some(10)), 50);
    assert_eq!(raw_block_channel_bound(&delayed, Some(100)), 101);

    let mut split = PipelineConfig::default();
    split.split_stages = true;
    assert_eq!(ledger_update_channel_bound(&split, Some(1)), 3);
    assert_eq!(commit_channel_bound(&split, Some(7)), 8);
}

#[test]
fn stage_accounting_splits_on_empty_block() {
    let mut accounting = ExecutionStageAccounting::start();
    accounting.record_block(5);
    assert!(accounting.stage_has_output());
    accounting.record_block(0);
    assert_eq!(accounting.stage_index, 1);
    assert!(!accounting.stage_has_output());
    accounting.record_block(3);
    assert_eq!(accounting.executed, 8);
    assert_eq!(accounting.stage_executed, 3);
}

#[test]
fn epoch_of_version_from_index_entry() {
    let store = LedgerStore::new(None);
    // No epoch change recorded: everything is epoch 0.
    assert_eq!(store.get_epoch(7, None), Ok(0));
    // Epoch 2 ended at version 5: version 7 is in epoch 3, version 5 closes
    // epoch 2, and an entry past the version is corruption.
    assert_eq!(store.get_epoch(7, Some((5, 2))), Ok(3));
    assert_eq!(store.get_epoch(5, Some((5, 2))), Ok(2));
    assert_eq!(store.get_epoch(4, Some((5, 2))), Err(LedgerStoreError::Corruption));
}

#[test]
fn epoch_ending_ledger_info_checks() {
    let store = LedgerStore::new(None);
    assert_eq!(
        store.get_epoch_ending_ledger_info(5, None),
        Err(LedgerStoreError::NotFound)
    );
    assert_eq!(
        store.get_epoch_ending_ledger_info(5, Some(li(2, 6, true))),
        Err(LedgerStoreError::Corruption)
    );
    assert_eq!(
        store.get_epoch_ending_ledger_info(5, Some(li(2, 5, false))),
        Err(LedgerStoreError::NotFound)
    );
    assert_eq!(
        store.get_epoch_ending_ledger_info(5, Some(li(2, 5, true))),
        Ok(li(2, 5, true))
    );
}

#[test]
fn latest_ledger_info_cache() {
    let mut store = LedgerStore::new(None);
    assert_eq!(store.get_latest_ledger_info_option(), None);
    assert_eq!(store.get_latest_ledger_info(), Err(LedgerStoreError::NotFound));
    store.set_latest_ledger_info(li(1, 9, false));
    assert_eq!(store.get_latest_ledger_info(), Ok(li(1, 9, false)));
    assert_eq!(store.get_latest_ledger_info_option(), Some(li(1, 9, false)));

    let warm = LedgerStore::new(Some(li(4, 44, true)));
    assert_eq!(warm.get_latest_ledger_info(), Ok(li(4, 44, true)));
}

#[test]
fn epoch_state_queries() {
    let store = LedgerStore::new(None);
    assert_eq!(store.get_epoch_state(0, None), Err(LedgerStoreError::InvalidRequest));
    assert_eq!(store.get_epoch_state(2, None), Err(LedgerStoreError::NotFound));
    assert_eq!(
        store.get_epoch_state(2, Some(li(1, 30, false))),
        Err(LedgerStoreError::Corruption)
    );
    assert_eq!(store.get_epoch_state(2, Some(li(1, 30, true))), Ok(EpochState { epoch: 2 }));
}

#[test]
fn lookup_style_queries() {
    let store = LedgerStore::new(None);
    assert_eq!(
        store.get_latest_ledger_info_in_epoch(Some(li(3, 12, false))),
        Ok(li(3, 12, false))
    );
    assert_eq!(
        store.get_latest_ledger_info_in_epoch(None),
        Err(LedgerStoreError::NotFound)
    );
    assert_eq!(store.get_latest_version(Some(88)), Ok(88));
    assert_eq!(store.get_latest_version(None), Err(LedgerStoreError::NotFound));
    assert_eq!(store.ensure_epoch_ending(Some(2)), Ok(()));
    assert_eq!(store.ensure_epoch_ending(None), Err(LedgerStoreError::InvalidRequest));
    let info = store
        .get_transaction_info(Some(TransactionInfo { bytes: vec![1, 2] }))
        .unwrap();
    assert_eq!(info.bytes, vec![1, 2]);
    assert!(store.get_transaction_info(None).is_err());
}

#[test]
fn consistency_proof_leaf_counts_saturate() {
    let store = LedgerStore::new(None);
    assert_eq!(store.consistency_proof_leaf_counts(None, 9), (0, 10));
    assert_eq!(store.consistency_proof_leaf_counts(Some(4), 9), (5, 10));
    assert_eq!(
        store.consistency_proof_leaf_counts(Some(u64::MAX), u64::MAX),
        (u64::MAX, u64::MAX)
    );
}

#[test]
fn ledger_info_batch_ops() {
    let store = LedgerStore::new(None);
    let closing = store.put_ledger_info(&li(2, 50, true));
    assert_eq!(closing.epoch_index_entry, Some((50, 2)));
    assert_eq!(closing.ledger_info_key, 2);
    let ordinary = store.put_ledger_info(&li(2, 51, false));
    assert_eq!(ordinary.epoch_index_entry, None);
    assert_eq!(ordinary.ledger_info_key, 2);
}

#[test]
fn transaction_info_version_assignment() {
    let store = LedgerStore::new(None);
    assert_eq!(store.transaction_info_versions(10, 3), vec![10, 11, 12]);
    assert!(store.transaction_info_versions(10, 0).is_empty());
}
