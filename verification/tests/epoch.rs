use pneumatic_core::blocks::{Block, BlockFactory, FinalityStatus};
use pneumatic_core::crypto::sha256;
use pneumatic_core::data::{DataError, DataProvider, StubDataProvider};
use pneumatic_core::epoch::{
    deterministic_select, deterministic_select_shard, derive_selection_seed,
    resolve_block_conflict, BlockProposer, CandidateRegistry, ConflictResolution, Epoch,
    EpochBoundaryDetector, EpochSnapshotCache, ExecutorSet, IBlockProposer, IEpochLeaderSelector,
    IEpochReconciler, IStakingManager, LeaderSelector, Shuffler, StakeSet, StubEpochReconciler,
    StubStakingManager, FINALIZER_DOMAIN, LEADER_DOMAIN, SHARD_INDEX_DOMAIN, SHARD_SHUFFLE_DOMAIN,
};
use pneumatic_core::epoch::leader::{shard_of, shuffle_with, stake_owner};
use pneumatic_core::errors::{PneumaticError, TransactionRiskFactor};
use pneumatic_core::registry::PendingTransactionRegistry;
use pneumatic_core::sorted_map::{SortedMap, TextMap};
use pneumatic_core::transactions::{
    SignedTransaction, Transaction, TransactionSignature, TransactionValidationResult,
};
use std::sync::atomic::{AtomicBool, Ordering};
use std::sync::Arc;

fn to_map(pairs: Vec<(Vec<u8>, u64)>) -> SortedMap<u64> {
    let mut map = SortedMap::new();
    for (key, stake) in pairs {
        map.insert(key, stake);
    }
    map
}

fn make_stake_set(stakes: Vec<(Vec<u8>, u64)>) -> StakeSet {
    StakeSet { stakers: to_map(stakes) }
}

fn make_executor_set(executors: Vec<(Vec<u8>, u64)>) -> ExecutorSet {
    ExecutorSet { executors: to_map(executors) }
}

fn transaction(id: &str, sequence_number: usize, amount: u64, timestamp: i64) -> Transaction {
    Transaction {
        id: id.to_string(),
        action: "Transfer".to_string(),
        token_id: vec![1, 2],
        bid: None,
        sequence_number,
        sender: vec![10],
        receiver: vec![20],
        amount: Some(amount),
        timestamp,
        result_hash: vec![],
        sender_signature: vec![],
    }
}

fn validation(amount: u64) -> TransactionValidationResult {
    TransactionValidationResult::valid(
        vec![99],
        TransactionRiskFactor { affected_parties: 2, amount, is_contract: false, is_multi_party: false },
    )
}

fn make_validated_registry() -> PendingTransactionRegistry {
    let mut registry = PendingTransactionRegistry::new();
    registry.register_pending("tx1".into()).unwrap();
    registry.acquire_transaction("tx1").unwrap();
    if let Ok(entry) = registry.get_transaction_mut("tx1") {
        entry.transition_to_validated(transaction("tx1", 1, 100, 1000), validation(100));
    }
    registry.register_pending("tx2".into()).unwrap();
    registry.acquire_transaction("tx2").unwrap();
    if let Ok(entry) = registry.get_transaction_mut("tx2") {
        entry.transition_to_validated(transaction("tx2", 2, 200, 2000), validation(200));
    }
    registry.enqueue_to_pool("tx1", vec![1, 2], 1, 1000, vec![10]).unwrap();
    registry.enqueue_to_pool("tx2", vec![1, 2], 2, 2000, vec![10]).unwrap();
    registry
}

fn make_epoch(num: u64, start: i64, end: i64, leader: Vec<u8>) -> Epoch {
    Epoch { start_timestamp: start, end_timestamp: end, epoch_number: num, leader_public_key: leader }
}

fn test_block(previous_hash: Vec<u8>) -> Block {
    let mut block = Block {
        signed_trans: SignedTransaction {
            transaction_id: "tx".to_string(),
            transaction: transaction("tx", 1, 1, 1),
            shielded: None,
            total_stake: 0,
            total_voters: 0,
            leader_address: vec![],
            leader_stake: 0,
            leader_hash: vec![],
            finalizer_addr: vec![],
            finalizer_sig: TransactionSignature::blank(),
            executor_sigs: SortedMap::new(),
            proposer_key: vec![],
        },
        token_metadata: TextMap::new(),
        previous_hash,
        current_hash: vec![],
        timestamp: 1,
        finality_status: FinalityStatus::Optimistic,
        proposer_key: vec![],
        epoch_number: 0,
    };
    block.current_hash = BlockFactory::create_hash(&block);
    block
}

#[test]
fn leader_selector_empty_stake_set_returns_empty() {
    let selector = LeaderSelector::new();
    let stakes = make_stake_set(vec![]);
    let leader = selector.select(&stakes, 1, &[]);
    assert!(leader.is_empty());
}

#[test]
fn leader_selector_single_staker_always_selected() {
    let selector = LeaderSelector::new();
    let key = vec![1, 2, 3];
    let stakes = make_stake_set(vec![(key.clone(), 100)]);
    for _ in 0..10 {
        assert_eq!(selector.select(&stakes, 1, &[]), key);
    }
}

#[test]
fn leader_selector_deterministic_different_epochs_can_differ() {
    let selector = LeaderSelector::new();
    let key_a = vec![1];
    let key_b = vec![2];
    let stakes = make_stake_set(vec![(key_a.clone(), 50), (key_b.clone(), 50)]);
    let leader_epoch1 = selector.select(&stakes, 1, &[]);
    assert_eq!(leader_epoch1, selector.select(&stakes, 1, &[]));
    let leader_epoch2 = selector.select(&stakes, 2, &[]);
    assert_eq!(leader_epoch1, selector.select(&stakes, 1, &[]));
    assert_eq!(leader_epoch2, selector.select(&stakes, 2, &[]));
}

#[test]
fn leader_selector_weighted_returns_more_from_larger_stake() {
    let selector = LeaderSelector::new();
    let key_small = vec![1];
    let key_large = vec![2];
    let stakes = make_stake_set(vec![(key_small.clone(), 10), (key_large.clone(), 90)]);
    let mut small_count = 0u64;
    for _ in 0..100 {
        if selector.select(&stakes, 1, &[]) == key_small {
            small_count += 1;
        }
    }
    assert!(small_count <= 25, "expected ~10 small selections, got {}", small_count);
}

#[test]
fn leader_selector_deterministic_same_inputs_same_output() {
    let selector = LeaderSelector::default();
    let stakes = make_stake_set(vec![(vec![1], 30), (vec![2], 50), (vec![3], 20)]);
    let first = selector.select(&stakes, 5, &[]);
    for _ in 1..20 {
        assert_eq!(selector.select(&stakes, 5, &[]), first);
    }
}

#[test]
fn deterministic_select_empty_returns_none() {
    let stakes = make_stake_set(vec![]);
    let result = deterministic_select(&stakes, FINALIZER_DOMAIN, b"tx1", 1, &[]);
    assert!(result.is_none());
}

#[test]
fn deterministic_select_single_staker_always_same() {
    let key = vec![1, 2, 3];
    let stakes = make_stake_set(vec![(key.clone(), 100)]);
    for _ in 0..20 {
        assert_eq!(deterministic_select(&stakes, FINALIZER_DOMAIN, b"tx1", 1, &[]), Some(key.clone()));
    }
}

#[test]
fn deterministic_select_different_txs_distribute() {
    let key_a = vec![1];
    let key_b = vec![2];
    let stakes = make_stake_set(vec![(key_a.clone(), 10), (key_b.clone(), 90)]);
    let mut a_count = 0u64;
    let num_trials = 200;
    for i in 0..num_trials {
        let tx_id = format!("tx_{}", i);
        if deterministic_select(&stakes, FINALIZER_DOMAIN, tx_id.as_bytes(), 1, &[]) == Some(key_a.clone()) {
            a_count += 1;
        }
    }
    assert!(a_count <= 30, "expected at most 30 small selections (10%), got {}", a_count);
    assert!(a_count >= 2, "expected at least 2 small selections (10%), got {}", a_count);
}

#[test]
fn deterministic_select_deterministic_across_epochs() {
    let stakes = make_stake_set(vec![(vec![1], 30), (vec![2], 50), (vec![3], 20)]);
    let epoch1 = deterministic_select(&stakes, FINALIZER_DOMAIN, b"tx_alpha", 1, &[]);
    let epoch1_again = deterministic_select(&stakes, FINALIZER_DOMAIN, b"tx_alpha", 1, &[]);
    assert_eq!(epoch1, epoch1_again);
    let epoch2 = deterministic_select(&stakes, FINALIZER_DOMAIN, b"tx_alpha", 2, &[]);
    let epoch2_again = deterministic_select(&stakes, FINALIZER_DOMAIN, b"tx_alpha", 2, &[]);
    assert_eq!(epoch2, epoch2_again);
}

#[test]
fn deterministic_select_zero_stake_returns_none() {
    let stakes = make_stake_set(vec![(vec![1], 0), (vec![2], 0)]);
    let result = deterministic_select(&stakes, FINALIZER_DOMAIN, b"tx1", 1, &[]);
    assert!(result.is_none());
}

#[test]
fn deterministic_select_skips_zero_stake_key() {
    let stakes = make_stake_set(vec![(vec![0], 0), (vec![1], 1)]);
    for _ in 0..50 {
        let result = deterministic_select(&stakes, FINALIZER_DOMAIN, b"tx1", 1, &[]);
        assert_eq!(result, Some(vec![1]), "zero-stake key must never be selected");
    }
    let stakes = make_stake_set(vec![(vec![0], 0), (vec![1], 30), (vec![2], 70)]);
    let mut saw_zero = false;
    for i in 0..200u8 {
        if deterministic_select(&stakes, FINALIZER_DOMAIN, &[i], 1, &[]).map(|k| k == vec![0]).unwrap_or(false) {
            saw_zero = true;
        }
    }
    assert!(!saw_zero, "zero-stake key must never be selected even in a mixed set");
}

#[test]
fn deterministic_select_no_panic_on_overflowing_stakes() {
    let large: u64 = 1 << 63;
    let stakes = make_stake_set(vec![(vec![1], large), (vec![2], large)]);
    for i in 0..200u8 {
        match deterministic_select(&stakes, FINALIZER_DOMAIN, &[i], 1, &[]) {
            Some(k) => assert!(k == vec![1] || k == vec![2], "overflow walk picks a real key"),
            None => panic!("overflow set has total>0, selection must not be None"),
        }
    }
}

#[test]
fn shuffler_empty_returns_empty() {
    let shuffler = Shuffler::new(vec![], 1, &[]);
    let shuffled = shuffler.shuffle();
    assert!(shuffled.is_empty());
}

#[test]
fn shuffler_single_item_same_order() {
    let shuffler = Shuffler::new(vec![b"executor_1".to_vec()], 1, &[]);
    let shuffled = shuffler.shuffle();
    assert_eq!(shuffled.len(), 1);
    assert_eq!(shuffled[0], b"executor_1".to_vec());
}

#[test]
fn shuffler_deterministic_same_epoch_same_order() {
    let keys = vec![b"a".to_vec(), b"b".to_vec(), b"c".to_vec()];
    let shuffler1 = Shuffler::new(keys.clone(), 42, &[]);
    let shuffler2 = Shuffler::new(keys, 42, &[]);
    let result1 = shuffler1.shuffle();
    let result2 = shuffler2.shuffle();
    assert_eq!(result1.len(), result2.len());
    for (a, b) in result1.iter().zip(result2.iter()) {
        assert_eq!(a, b);
    }
}

#[test]
fn shuffler_different_epochs_different_order() {
    let keys = vec![b"a".to_vec(), b"b".to_vec(), b"c".to_vec(), b"d".to_vec(), b"e".to_vec()];
    let shuffler1 = Shuffler::new(keys.clone(), 1, &[]);
    let shuffler2 = Shuffler::new(keys.clone(), 2, &[]);
    let result1 = shuffler1.shuffle();
    let result2 = shuffler2.shuffle();
    assert_ne!(result1.to_vec(), result2.to_vec());
}

#[test]
fn shuffles_permute_their_items() {
    let keys: Vec<Vec<u8>> = (0..20u8).map(|i| vec![i]).collect();
    let shuffler = Shuffler::new(keys.clone(), 9, &[1]);
    let mut sorted = shuffler.shuffle().to_vec();
    assert_ne!(sorted, keys);
    sorted.sort();
    assert_eq!(sorted, keys);
    // Draws name the position each tail item changes places with.
    let swapped = shuffle_with(vec![vec![0], vec![1], vec![2]], &vec![0, 0]);
    assert_eq!(swapped, vec![vec![1], vec![2], vec![0]]);
}

#[test]
fn every_point_of_the_stake_has_its_owner() {
    let stakes = make_stake_set(vec![(vec![2], 3), (vec![1], 2), (vec![0], 0)]);
    let one = Some(vec![1]);
    let two = Some(vec![2]);
    let owners: Vec<Option<Vec<u8>>> = (0..7u64).map(|target| stake_owner(&stakes, target)).collect();
    assert_eq!(owners, vec![one.clone(), one.clone(), one, two.clone(), two.clone(), two, None]);
    assert!(stake_owner(&make_stake_set(vec![]), 0).is_none());
}

#[test]
fn deterministic_select_shard_empty_returns_none() {
    let executors = ExecutorSet::default();
    let result = deterministic_select_shard(&executors, 2, "tx1", 1, &[]);
    assert!(result.is_none());
}

#[test]
fn deterministic_select_shard_single_shard_returns_all() {
    let mut executors = ExecutorSet::default();
    executors.executors.insert(b"exec1".to_vec(), 100);
    executors.executors.insert(b"exec2".to_vec(), 200);
    let result = deterministic_select_shard(&executors, 1, "any-tx", 1, &[]);
    assert!(result.is_some());
    let keys = result.unwrap();
    assert_eq!(keys.len(), 2);
}

#[test]
fn deterministic_select_shard_excludes_zero_stake_executor() {
    let exec0 = vec![0];
    let exec1 = vec![1];
    let exec2 = vec![2];
    let es = make_executor_set(vec![(exec0.clone(), 0u64), (exec1.clone(), 100), (exec2.clone(), 100)]);
    let single = deterministic_select_shard(&es, 1, "any-tx", 1, &[]).unwrap();
    assert_eq!(single, vec![exec1.clone(), exec2.clone()]);
    assert!(!single.iter().any(|k| *k == exec0));
    for shard_count in 2..4u32 {
        for seed in 0..32u8 {
            if let Some(shards) = deterministic_select_shard(&es, shard_count, "tx-shard", 1, &[seed]) {
                assert!(
                    !shards.iter().any(|k| *k == exec0),
                    "zero-stake executor leaked into the selected shard (shard_count={})",
                    shard_count
                );
            }
        }
    }
}

#[test]
fn deterministic_select_shard_distributes_across_shards() {
    let mut executors = ExecutorSet::default();
    for i in 0..6 {
        executors.executors.insert(format!("exec{}", i).into_bytes(), 100);
    }
    let result = deterministic_select_shard(&executors, 3, "tx-42", 1, &[]);
    assert!(result.is_some());
    let shard = result.unwrap();
    assert!(shard.len() >= 1 && shard.len() <= 4, "shard size {} should be between 1 and 4", shard.len());
}

#[test]
fn deterministic_select_shard_no_panic_on_overflowing_stakes() {
    let large: u64 = 1 << 63;
    let mut executors = ExecutorSet::default();
    for i in 0..4 {
        executors.executors.insert(format!("exec{}", i).into_bytes(), large);
    }
    let result = deterministic_select_shard(&executors, 2, "tx-overflow", 1, &[]);
    assert!(result.is_some(), "overflowing-stake shard walk must still return a shard");
}

#[test]
fn deterministic_select_shard_deterministic_across_calls() {
    let mut executors = ExecutorSet::default();
    for i in 0..4 {
        executors.executors.insert(format!("exec{}", i).into_bytes(), 100 + i);
    }
    let result1 = deterministic_select_shard(&executors, 2, "same-tx", 5, &[]);
    let result2 = deterministic_select_shard(&executors, 2, "same-tx", 5, &[]);
    assert!(result1.is_some() && result2.is_some());
    assert_eq!(result1.unwrap(), result2.unwrap());
}

#[test]
fn deterministic_select_shard_sorted_before_shuffle() {
    let pairs: Vec<(Vec<u8>, u64)> = (0..8).map(|i| (format!("exec{i}").into_bytes(), 100 + i)).collect();
    let forward = make_executor_set(pairs.clone());
    let mut reversed = make_executor_set(pairs.clone());
    reversed.executors.clear();
    for i in (0..8).rev() {
        reversed.executors.insert(format!("exec{i}").into_bytes(), 100 + i);
    }
    let bytes = rmp_serde::to_vec(&pairs).unwrap();
    let roundtrip = make_executor_set(rmp_serde::from_slice(&bytes).unwrap());
    let cases = [(1u32, "tx-a", 7), (3, "tx-a", 7), (4, "other-tx", 9), (2, "tx-a", 7)];
    for (sc, tx, ep) in cases {
        let a = deterministic_select_shard(&forward, sc, tx, ep, &[]).unwrap();
        let b = deterministic_select_shard(&reversed, sc, tx, ep, &[]).unwrap();
        let c = deterministic_select_shard(&roundtrip, sc, tx, ep, &[]).unwrap();
        assert_eq!(a, b, "forward vs reversed differ: shard_count={} tx={} epoch={}", sc, tx, ep);
        assert_eq!(a, c, "forward vs round-trip differ: shard_count={} tx={} epoch={}", sc, tx, ep);
    }
}

#[test]
fn shards_cover_every_executor_once() {
    let executors: Vec<(Vec<u8>, u64)> = (0..7u8).map(|i| (vec![i], 10)).collect();
    let mut all: Vec<Vec<u8>> = Vec::new();
    for index in 0..3u32 {
        all.extend(shard_of(&executors, 3, index));
    }
    all.sort();
    assert_eq!(all, executors.iter().map(|e| e.0.clone()).collect::<Vec<Vec<u8>>>());
}

#[test]
fn selection_seed_leader_changes_with_prev_block_hash() {
    let selector = LeaderSelector::new();
    let stakes = make_stake_set(vec![(vec![1], 50), (vec![2], 50)]);
    let leader_a = selector.select(&stakes, 7, &[0x11u8; 32]);
    let leader_b = selector.select(&stakes, 7, &[0x22u8; 32]);
    assert_ne!(leader_a, leader_b, "leader must vary with prev_block_hash");
}

#[test]
fn selection_seed_distinct_domains_differ() {
    let stakes = make_stake_set(vec![(vec![1], 10), (vec![2], 30), (vec![3], 60)]);
    let prev = [0x33u8; 32];
    let leader_seed = derive_selection_seed(LEADER_DOMAIN, 7, &prev, &[]);
    let finalizer_seed = derive_selection_seed(FINALIZER_DOMAIN, 7, &prev, b"tx1");
    assert_ne!(leader_seed, finalizer_seed, "domains must be separated in the seed");
    let leader = deterministic_select(&stakes, LEADER_DOMAIN, &[], 7, &prev).unwrap();
    let finalizer = deterministic_select(&stakes, FINALIZER_DOMAIN, b"tx1", 7, &prev).unwrap();
    assert_ne!(leader, finalizer, "leader and finalizer must not collide");
}

#[test]
fn domain_bytes_are_distinct() {
    let domains = [LEADER_DOMAIN, SHARD_SHUFFLE_DOMAIN, FINALIZER_DOMAIN, SHARD_INDEX_DOMAIN];
    assert_eq!(domains, [1, 2, 3, 4]);
}

#[test]
fn selection_seed_shard_index_changes_with_prev_block_hash() {
    let executors = make_executor_set(vec![
        (b"exec0".to_vec(), 100),
        (b"exec1".to_vec(), 100),
        (b"exec2".to_vec(), 100),
        (b"exec3".to_vec(), 100),
    ]);
    let a = deterministic_select_shard(&executors, 2, "tx-1", 7, &[0x11u8; 32]).unwrap();
    let b = deterministic_select_shard(&executors, 2, "tx-1", 7, &[0x22u8; 32]).unwrap();
    assert_ne!(a, b, "selected shard must vary with prev_block_hash");
}

#[test]
fn selection_seed_matches_manual_hash() {
    let prev = [0x44u8; 32];
    let extra = b"tx1";
    let built = derive_selection_seed(LEADER_DOMAIN, 7, &prev, extra);
    let mut input = Vec::new();
    input.push(LEADER_DOMAIN);
    input.extend_from_slice(&7u64.to_be_bytes());
    input.extend_from_slice(&prev);
    input.extend_from_slice(extra);
    let digest = ring::digest::digest(&ring::digest::SHA256, &input);
    let mut expected = [0u8; 32];
    expected.copy_from_slice(digest.as_ref());
    assert_eq!(built, expected, "derived seed must equal SHA-256(domain, epoch, prev, extra)");
}

#[test]
fn selection_seed_independent_of_tx_id_for_leader() {
    let key_a = vec![1];
    let key_b = vec![2];
    let stakes = make_stake_set(vec![(key_a.clone(), 10), (key_b.clone(), 90)]);
    let prev = [0x55u8; 32];
    let leader = deterministic_select(&stakes, LEADER_DOMAIN, &[], 7, &prev).unwrap();
    assert_eq!(leader.len(), 1, "leader path returns exactly one stake key");
    let mut finalizer_keys = std::collections::BTreeSet::new();
    for i in 0..100 {
        let key = deterministic_select(&stakes, FINALIZER_DOMAIN, format!("tx_{i}").as_bytes(), 7, &prev).unwrap();
        finalizer_keys.insert(key);
    }
    assert!(
        finalizer_keys.len() > 1,
        "finalizer must span multiple keys across txs; got {:?}",
        finalizer_keys
    );
}

#[test]
fn proposer_empty_pool_returns_empty_vec() {
    let mut registry = PendingTransactionRegistry::new();
    let proposer = BlockProposer::new(vec![1], 100, vec![2]);
    let batch = proposer.propose_batch(&mut registry, &[1, 2], 10).unwrap();
    assert!(batch.is_empty());
}

#[test]
fn proposer_batch_size_matches_limit() {
    let mut registry = make_validated_registry();
    let proposer = BlockProposer::new(vec![1], 100, vec![2]);
    let batch = proposer.propose_batch(&mut registry, &[1, 2], 2).unwrap();
    assert_eq!(batch.len(), 2);
}

#[test]
fn proposer_fewer_txs_than_limit_returns_available() {
    let mut registry = make_validated_registry();
    let proposer = BlockProposer::new(vec![1], 100, vec![2]);
    let batch = proposer.propose_batch(&mut registry, &[1, 2], 10).unwrap();
    assert_eq!(batch.len(), 2);
}

#[test]
fn proposer_dequeued_txs_not_returned_again() {
    let mut registry = make_validated_registry();
    let proposer = BlockProposer::new(vec![1], 100, vec![2]);
    let _batch1 = proposer.propose_batch(&mut registry, &[1, 2], 10).unwrap();
    let batch2 = proposer.propose_batch(&mut registry, &[1, 2], 10).unwrap();
    assert!(batch2.is_empty());
}

#[test]
fn proposer_leader_fields_propagated() {
    let mut registry = make_validated_registry();
    let proposer = BlockProposer::new(vec![99], 777, vec![42]);
    let batch = proposer.propose_batch(&mut registry, &[1, 2], 10).unwrap();
    for (_, signed) in batch {
        assert_eq!(signed.leader_address, vec![99]);
        assert_eq!(signed.leader_stake, 777);
        assert_eq!(signed.leader_hash, vec![42]);
    }
}

#[test]
fn proposals_keep_the_pool_order() {
    let mut registry = make_validated_registry();
    let proposer = BlockProposer::new(vec![99], 777, vec![42]).clone();
    let batch = proposer.propose_batch(&mut registry, &[1, 2], 1).unwrap();
    assert_eq!(batch.len(), 1);
    assert_eq!(batch[0].0.id, "tx1");
    assert_eq!(batch[0].1.transaction_id, "tx1");
    assert_eq!(batch[0].1.proposer_key, vec![99]);
    let rest = proposer.propose_batch(&mut registry, &[1, 2], 1).unwrap();
    assert_eq!(rest[0].0.id, "tx2");
}

#[test]
fn proposing_an_unvalidated_transaction_fails() {
    let mut registry = PendingTransactionRegistry::new();
    registry.register_pending("tx1".into()).unwrap();
    registry.enqueue_to_pool("tx1", vec![1, 2], 1, 1000, vec![10]).unwrap();
    let proposer = BlockProposer::new(vec![1], 100, vec![2]);
    assert!(matches!(
        proposer.propose_batch(&mut registry, &[1, 2], 10),
        Err(PneumaticError::Registry(_))
    ));
}

#[test]
fn snapshot_cache_empty_returns_none() {
    let dp = Arc::new(StubDataProvider::new());
    let mut cache: EpochSnapshotCache<StakeSet, _> =
        EpochSnapshotCache::new("test".into(), move |epoch: u64, _p: &str| dp.get_stake_snapshot(epoch, _p));
    assert!(cache.get(1).is_none());
}

#[test]
fn snapshot_cache_put_and_get() {
    let dp = Arc::new(StubDataProvider::new());
    let mut cache: EpochSnapshotCache<StakeSet, _> =
        EpochSnapshotCache::new("test".into(), move |epoch: u64, _p: &str| dp.get_stake_snapshot(epoch, _p));
    cache.put(5, make_stake_set(vec![(vec![1], 100), (vec![2], 200)]));
    let result = cache.get(5).unwrap();
    assert_eq!(result.total_stake(), 300);
}

#[test]
fn snapshot_cache_fallback_to_data_provider() {
    let snapshot = make_stake_set(vec![(vec![10], 500)]);
    let dp = Arc::new(StubDataProvider::new().with_stake_snapshot(3, snapshot));
    let mut cache: EpochSnapshotCache<StakeSet, _> =
        EpochSnapshotCache::new("test".into(), move |epoch: u64, _p: &str| dp.get_stake_snapshot(epoch, _p));
    let result = cache.get(3).unwrap();
    assert_eq!(result.total_stake(), 500);
    assert_eq!(cache.cached_count(), 1);
    assert!(cache.get(3).is_some());
}

#[test]
fn snapshot_cache_independent_epochs() {
    let dp = Arc::new(
        StubDataProvider::new()
            .with_stake_snapshot(1, make_stake_set(vec![(vec![1], 100)]))
            .with_stake_snapshot(2, make_stake_set(vec![(vec![2], 200)])),
    );
    let mut cache: EpochSnapshotCache<StakeSet, _> =
        EpochSnapshotCache::new("test".into(), move |epoch: u64, _p: &str| dp.get_stake_snapshot(epoch, _p));
    assert_eq!(cache.get(1).unwrap().total_stake(), 100);
    assert_eq!(cache.get(2).unwrap().total_stake(), 200);
    assert_eq!(cache.cached_count(), 2);
}

#[test]
fn snapshot_cache_invalidate_all_clears_and_refetches() {
    let dp = Arc::new(
        StubDataProvider::new()
            .with_stake_snapshot(1, make_stake_set(vec![(vec![1], 100)]))
            .with_stake_snapshot(2, make_stake_set(vec![(vec![2], 200)])),
    );
    let mut cache: EpochSnapshotCache<StakeSet, _> =
        EpochSnapshotCache::new("test".into(), move |epoch: u64, _p: &str| dp.get_stake_snapshot(epoch, _p));
    cache.put(1, make_stake_set(vec![(vec![1], 100)]));
    cache.put(2, make_stake_set(vec![(vec![2], 200)]));
    assert_eq!(cache.cached_count(), 2);
    cache.invalidate_all();
    assert_eq!(cache.cached_count(), 0);
    assert_eq!(cache.get(1).unwrap().total_stake(), 100);
    assert_eq!(cache.cached_count(), 1);
}

#[test]
fn snapshot_cache_executor_set_variant() {
    let executors = make_executor_set(vec![(vec![10], 500)]);
    let dp = Arc::new(StubDataProvider::new().with_executor_set(3, executors));
    let mut cache: EpochSnapshotCache<ExecutorSet, _> =
        EpochSnapshotCache::new("test".into(), move |epoch: u64, _p: &str| dp.get_executor_set(epoch, _p));
    assert_eq!(cache.get(3).unwrap().total_stake(), 500);
    assert_eq!(cache.cached_count(), 1);
    cache.put(4, make_executor_set(vec![(vec![1], 100)]));
    assert_eq!(cache.cached_count(), 2);
    cache.invalidate_all();
    assert_eq!(cache.cached_count(), 0);
}

#[test]
fn snapshot_cache_fetch_receives_partition_id() {
    let saw_partition = Arc::new(AtomicBool::new(false));
    let saw_partition_clone = Arc::clone(&saw_partition);
    let mut cache: EpochSnapshotCache<StakeSet, _> =
        EpochSnapshotCache::new("partition-A".into(), move |_epoch: u64, partition: &str| {
            if partition == "partition-A" {
                saw_partition_clone.store(true, Ordering::SeqCst);
            }
            Err(DataError::DataNotFound)
        });
    assert!(cache.get(1).is_none());
    assert!(saw_partition.load(Ordering::SeqCst));
}

#[test]
fn stake_set_canonical_bytes_is_order_independent_and_fingerprint_matches_digest() {
    let set_a = make_stake_set(vec![(vec![1, 2, 3], 100), (vec![7], 200)]);
    let set_b = make_stake_set(vec![(vec![7], 200), (vec![1, 2, 3], 100)]);
    assert_eq!(
        set_a.canonical_bytes().unwrap(),
        set_b.canonical_bytes().unwrap(),
        "canonical bytes must be independent of insertion order"
    );
    let set = make_stake_set(vec![(vec![9], 55), (vec![8], 11)]);
    let digest = sha256(&set.canonical_bytes().unwrap());
    let fp: [u8; 32] = digest.as_slice().try_into().unwrap();
    assert_eq!(set.fingerprint(), fp, "fingerprint must equal SHA-256(canonical_bytes)");
    let set2 = make_stake_set(vec![(vec![9], 56), (vec![8], 11)]);
    assert_ne!(set.fingerprint(), set2.fingerprint(), "distinct payloads -> distinct fingerprints");
}

#[test]
fn canonical_bytes_are_the_packed_sorted_map() {
    let set = make_stake_set(vec![(vec![9], 55), (vec![8], 11)]);
    let pairs: std::collections::BTreeMap<Vec<u8>, u64> = [(vec![8], 11), (vec![9], 55)].into_iter().collect();
    assert_eq!(set.canonical_bytes().unwrap(), rmp_serde::to_vec(&pairs).unwrap());
}

#[test]
fn executor_set_canonical_bytes_is_order_independent() {
    let set_a = make_executor_set(vec![(vec![1], 100), (vec![2], 200)]);
    let set_b = make_executor_set(vec![(vec![2], 200), (vec![1], 100)]);
    assert_eq!(set_a.canonical_bytes().unwrap(), set_b.canonical_bytes().unwrap());
    assert_eq!(set_a.fingerprint(), set_b.fingerprint());
    assert_eq!(set_a.sorted_keys(), vec![vec![1], vec![2]]);
    let mut order = set_a.shuffler(1, &[]).shuffle().to_vec();
    order.sort();
    assert_eq!(order, set_b.sorted_keys());
}

#[test]
fn stake_set_total_stake_returns_sum() {
    let stakes = make_stake_set(vec![(vec![1], 10), (vec![2], 20), (vec![3], 30)]);
    assert_eq!(stakes.total_stake(), 60);
}

#[test]
fn stake_set_total_stake_saturates_on_overflow() {
    let large: u64 = 1 << 63;
    let stakes = make_stake_set(vec![(vec![1], large), (vec![2], large)]);
    assert_eq!(stakes.total_stake(), u64::MAX);
}

#[test]
fn stake_set_get_stake_returns_zero_for_missing_key() {
    let stakes = make_stake_set(vec![(vec![1], 10)]);
    assert_eq!(stakes.get_stake(&[2]), 0);
}

#[test]
fn stake_set_get_stake_returns_correct_value() {
    let stakes = make_stake_set(vec![(vec![1], 100)]);
    assert_eq!(stakes.get_stake(&[1]), 100);
    assert_eq!(stakes.clone().to_executor_set().get_stake(&[1]), 100);
}

#[test]
fn executor_set_empty_on_creation() {
    let es = ExecutorSet::default();
    assert!(es.is_empty());
    assert_eq!(es.len(), 0);
    assert_eq!(es.total_stake(), 0);
}

#[test]
fn executor_set_total_stake_returns_sum() {
    let es = make_executor_set(vec![(b"a".to_vec(), 10), (b"b".to_vec(), 20), (b"c".to_vec(), 30)]);
    assert_eq!(es.total_stake(), 60);
    assert_eq!(es.len(), 3);
}

#[test]
fn executor_set_total_stake_saturates_on_overflow() {
    let large: u64 = 1 << 63;
    let es = make_executor_set(vec![(b"a".to_vec(), large), (b"b".to_vec(), large)]);
    assert_eq!(es.total_stake(), u64::MAX);
}

#[test]
fn executor_set_get_stake_returns_zero_for_missing_key() {
    let es = make_executor_set(vec![(b"a".to_vec(), 100)]);
    assert_eq!(es.get_stake(&b"z".to_vec()), 0);
}

#[test]
fn executor_set_to_stake_set_converts() {
    let es = make_executor_set(vec![(b"a".to_vec(), 100)]);
    let ss = es.to_stake_set();
    assert_eq!(ss.total_stake(), 100);
}

#[test]
fn detector_not_expired_before_end() {
    let epoch = make_epoch(1, 0, 1000, vec![1]);
    let detector = EpochBoundaryDetector::new(epoch);
    assert!(!detector.is_epoch_expired(999));
}

#[test]
fn detector_expired_at_end() {
    let epoch = make_epoch(1, 0, 1000, vec![1]);
    let detector = EpochBoundaryDetector::new(epoch);
    assert!(detector.is_epoch_expired(1000));
}

#[test]
fn detector_current_leader_returns_some() {
    let epoch = make_epoch(1, 0, 1000, vec![1]);
    let detector = EpochBoundaryDetector::new(epoch);
    let leader = detector.current_leader();
    assert!(matches!(leader, Some(bytes) if bytes == [1u8]));
}

#[test]
fn detector_current_leader_empty_returns_none() {
    let epoch = make_epoch(1, 0, 1000, vec![]);
    let detector = EpochBoundaryDetector::new(epoch);
    assert!(detector.current_leader().is_none());
}

#[test]
fn detector_advance_to_new_epoch_bumps_number_and_selects_leader() {
    let epoch = make_epoch(1, 0, 1000, vec![1]);
    let mut detector = EpochBoundaryDetector::new(epoch);
    let selector = LeaderSelector::new();
    let stakes = make_stake_set(vec![(vec![2], 100)]);
    detector.advance_to_new_epoch(&selector, &stakes, 1000, &[]);
    assert_eq!(detector.current_epoch.epoch_number, 2);
    assert_eq!(detector.previous_leader, Some(vec![1]));
    assert_eq!(detector.current_epoch.leader_public_key, vec![2]);
}

#[test]
fn leaderless_epoch_keeps_the_previous_leader() {
    let mut detector = EpochBoundaryDetector::new(make_epoch(1, 0, 1000, vec![1]));
    let selector = LeaderSelector::new();
    let nobody = make_stake_set(vec![]);
    detector.advance_to_new_epoch(&selector, &nobody, 500, &[]);
    detector.advance_to_new_epoch(&selector, &nobody, 500, &[]);
    assert_eq!(detector.previous_leader, Some(vec![1]));
    assert_eq!(detector.current_epoch.start_timestamp, 1500);
    assert_eq!(detector.current_epoch.end_timestamp, 2000);
}

#[test]
fn detector_is_stale_block_detects_previous_leader() {
    let epoch = make_epoch(1, 0, 1000, vec![1]);
    let mut detector = EpochBoundaryDetector::new(epoch);
    detector.previous_leader = Some(vec![99]);
    assert!(detector.is_stale_block(&vec![99]));
    assert!(!detector.is_stale_block(&vec![1]));
}

#[test]
fn detector_is_stale_block_no_previous_returns_false() {
    let epoch = make_epoch(1, 0, 1000, vec![1]);
    let detector = EpochBoundaryDetector::new(epoch);
    assert!(!detector.is_stale_block(&vec![1]));
    assert!(!detector.is_stale_block(&vec![99]));
}

#[test]
fn registry_empty_on_creation() {
    let registry = CandidateRegistry::new();
    assert!(registry.is_empty());
    assert_eq!(registry.len(), 0);
}

#[test]
fn registry_lru_evicts_oldest_when_over_cap() {
    let mut registry = CandidateRegistry::with_max_candidates(3);
    let token_id = vec![7];
    let prev_hash = vec![8];
    let first = vec![1];
    for proposer in [first, vec![2], vec![3], vec![4], vec![5]] {
        let block = test_block(proposer.clone());
        registry.insert(token_id.clone(), prev_hash.clone(), block, proposer);
    }
    let candidates = registry.get_candidates(&token_id, &prev_hash);
    assert_eq!(candidates.len(), 3, "per-position count stays capped at max");
    let proposers: Vec<Vec<u8>> = candidates.iter().map(|(_, pk)| pk.clone()).collect();
    assert_eq!(proposers, vec![vec![3], vec![4], vec![5]]);
}

#[test]
fn registry_insert_and_get_candidates() {
    let mut registry = CandidateRegistry::new();
    let block = test_block(vec![1, 2, 3]);
    let token_id = vec![1, 2];
    let prev_hash = vec![4, 5, 6];
    let proposer = vec![99];
    registry.insert(token_id.clone(), prev_hash.clone(), block, proposer.clone());
    let candidates = registry.get_candidates(&token_id, &prev_hash);
    assert_eq!(candidates.len(), 1);
    assert_eq!(candidates[0].1, proposer);
    assert_eq!(candidates[0].0.previous_hash, vec![1, 2, 3]);
}

#[test]
fn registry_detects_conflict_on_second_insert() {
    let mut registry = CandidateRegistry::new();
    let block_a = test_block(vec![1]);
    let block_b = test_block(vec![2]);
    let token_id = vec![1, 2];
    let prev_hash = vec![3, 4, 5];
    registry.insert(token_id.clone(), prev_hash.clone(), block_a, vec![1]);
    assert!(!registry.has_conflict(&token_id, &prev_hash));
    registry.insert(token_id.clone(), prev_hash.clone(), block_b, vec![2]);
    assert!(registry.has_conflict(&token_id, &prev_hash));
}

#[test]
fn registry_candidate_count_returns_correct_count() {
    let mut registry = CandidateRegistry::new();
    let token_id = vec![1];
    let prev_hash = vec![2];
    assert_eq!(registry.candidate_count(&token_id, &prev_hash), 0);
    registry.insert(token_id.clone(), prev_hash.clone(), test_block(vec![1]), vec![1]);
    assert_eq!(registry.candidate_count(&token_id, &prev_hash), 1);
    registry.insert(token_id.clone(), prev_hash.clone(), test_block(vec![2]), vec![2]);
    assert_eq!(registry.candidate_count(&token_id, &prev_hash), 2);
}

#[test]
fn registry_remove_conflicted_clears_entry() {
    let mut registry = CandidateRegistry::new();
    let token_id = vec![1, 2];
    let prev_hash = vec![3, 4, 5];
    registry.insert(token_id.clone(), prev_hash.clone(), test_block(vec![1]), vec![1]);
    registry.insert(token_id.clone(), prev_hash.clone(), test_block(vec![2]), vec![2]);
    assert_eq!(registry.candidate_count(&token_id, &prev_hash), 2);
    let removed = registry.remove_conflicted(&token_id, &prev_hash);
    assert_eq!(removed, 2);
    assert!(registry.is_empty());
    assert_eq!(registry.remove_conflicted(&token_id, &prev_hash), 0);
}

#[test]
fn registry_separate_keys_independent() {
    let mut registry = CandidateRegistry::default();
    let block = test_block(vec![1]);
    registry.insert(vec![1], vec![2], block.clone(), vec![1]);
    registry.insert(vec![3], vec![4], block, vec![2]);
    assert_eq!(registry.len(), 2);
    assert_eq!(registry.candidate_count(&[1], &[2]), 1);
    assert_eq!(registry.candidate_count(&[3], &[4]), 1);
    assert!(!registry.has_conflict(&[1], &[2]));
}

/// The boundary between token id and previous hash belongs to the position.
#[test]
fn positions_split_where_the_token_ends() {
    let mut registry = CandidateRegistry::new();
    registry.insert(vec![1, 2], vec![3], test_block(vec![1]), vec![1]);
    registry.insert(vec![1], vec![2, 3], test_block(vec![1]), vec![1]);
    assert_eq!(registry.len(), 2);
    assert_eq!(registry.candidate_count(&[1, 2], &[3]), 1);
}

#[test]
fn epoch_new_with_leader_sets_fields() {
    let selector = LeaderSelector::new();
    let key = vec![42];
    let stakes = make_stake_set(vec![(key.clone(), 100)]);
    let epoch = Epoch::new_with_leader(1, 1000, 2000, &selector, &stakes, &[]);
    assert_eq!(epoch.epoch_number, 1);
    assert_eq!(epoch.start_timestamp, 1000);
    assert_eq!(epoch.end_timestamp, 2000);
    assert_eq!(epoch.leader_public_key, key);
}

#[test]
fn conflict_resolution_stake_difference_returns_discard_loser() {
    let stakes = make_stake_set(vec![(vec![1], 100), (vec![2], 200)]);
    let result = resolve_block_conflict(b"hash_a", b"hash_b", &vec![1], &vec![2], &stakes).unwrap();
    match result {
        ConflictResolution::DiscardLoser(winner) => assert_eq!(winner, b"hash_b"),
        _ => panic!("Expected DiscardLoser"),
    }
    let swapped = resolve_block_conflict(b"hash_b", b"hash_a", &vec![2], &vec![1], &stakes).unwrap();
    assert!(matches!(swapped, ConflictResolution::DiscardLoser(winner) if winner == b"hash_b"));
}

#[test]
fn conflict_resolution_equal_stake_different_proposers_returns_flag_both() {
    let stakes = make_stake_set(vec![(vec![1], 100), (vec![2], 100)]);
    let result = resolve_block_conflict(b"aa", b"bb", &vec![1], &vec![2], &stakes).unwrap();
    match result {
        ConflictResolution::TieFlagBoth(_) => {}
        _ => panic!("Expected TieFlagBoth"),
    }
}

#[test]
fn conflict_resolution_same_proposer_returns_slash() {
    let stakes = make_stake_set(vec![(vec![1], 100)]);
    let result = resolve_block_conflict(b"hash_a", b"hash_b", &vec![1], &vec![1], &stakes).unwrap();
    match result {
        ConflictResolution::SameProposerSlash(winner, slashed) => {
            assert_eq!(winner, b"hash_a");
            assert_eq!(slashed, vec![1]);
        }
        _ => panic!("Expected SameProposerSlash"),
    }
}

#[test]
fn stub_reconciliation_is_empty_and_accepted() {
    let ops = StubEpochReconciler.reconcile();
    assert!(ops.misshapen_tokens.is_empty() && ops.slashing_ops.is_empty() && ops.reward_ops.is_empty());
    assert!(StubStakingManager.apply_ops(&ops).is_ok());
}
