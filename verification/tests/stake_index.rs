use pneumatic_core::config::{Config, TypeConfigs};
use pneumatic_core::crypto::AsymCryptoProviderType;
use pneumatic_core::data::{DataError, DataProvider, StubDataProvider};
use pneumatic_core::environment::{
    CostModel, EnvironmentMetadataSpec, EnvironmentPartition, EnvironmentPartitionType,
};
use pneumatic_core::epoch::{ExecutorSet, StakeSet};
use pneumatic_core::keyed_store::KeyedStore;
use pneumatic_core::node::stake_index::StakeIndex;
use pneumatic_core::node::{NodeRegistryType, NodeTypeConfig};
use pneumatic_core::tokens::Token;
use pneumatic_core::user::User;
use std::sync::atomic::{AtomicUsize, Ordering};
use std::sync::{Arc, Mutex};

fn test_config(per_type: &[(NodeRegistryType, u64)]) -> Arc<Config> {
    let mut type_configs = TypeConfigs::new();
    for t in NodeRegistryType::all() {
        let floor = per_type.iter().find(|p| p.0 == t).map(|p| p.1).unwrap_or(10);
        type_configs.insert(t, NodeTypeConfig { min: 1, max: 10, min_stake: floor });
    }
    Arc::new(Config::new_for_testing("test".to_string(), KeyedStore::new(), type_configs))
}

fn snapshot_of(key: Vec<u8>, stake: u64) -> StakeSet {
    let mut snapshot = StakeSet::default();
    snapshot.stakers.insert(key, stake);
    snapshot
}

/// Answers from a snapshot that can be swapped, and counts the questions.
struct TestProvider {
    inner: Arc<Mutex<StubDataProvider>>,
    snapshot_calls: Arc<AtomicUsize>,
}

impl TestProvider {
    fn new(inner: StubDataProvider) -> Self {
        TestProvider { inner: Arc::new(Mutex::new(inner)), snapshot_calls: Arc::new(AtomicUsize::new(0)) }
    }
}

impl DataProvider for TestProvider {
    fn get_data(&self, _key: &Vec<u8>, _partition: &str) -> Result<Vec<u8>, DataError> {
        Err(DataError::DataNotFound)
    }
    fn save_data(&mut self, _key: &Vec<u8>, _data: Vec<u8>, _partition: &str) -> Result<(), DataError> {
        Ok(())
    }
    fn get_token(&self, _key: &Vec<u8>, _partition: &str) -> Result<Token, DataError> {
        Err(DataError::DataNotFound)
    }
    fn save_token(&mut self, _key: &Vec<u8>, _token: Token, _partition: &str) -> Result<(), DataError> {
        Ok(())
    }
    fn get_user(&self, _key: &Vec<u8>, _partition: &str) -> Result<User, DataError> {
        Err(DataError::DataNotFound)
    }
    fn save_user(&mut self, _key: &Vec<u8>, _user: User, _partition: &str) -> Result<(), DataError> {
        Ok(())
    }
    fn get_stake_snapshot(&self, epoch: u64, partition: &str) -> Result<StakeSet, DataError> {
        self.snapshot_calls.fetch_add(1, Ordering::SeqCst);
        self.inner.lock().unwrap().get_stake_snapshot(epoch, partition)
    }
    fn save_stake_snapshot(&mut self, _epoch: u64, _snapshot: StakeSet, _partition: &str) -> Result<(), DataError> {
        Ok(())
    }
    fn get_executor_set(&self, _epoch: u64, _partition: &str) -> Result<ExecutorSet, DataError> {
        Err(DataError::DataNotFound)
    }
    fn save_executor_set(&mut self, _epoch: u64, _set: ExecutorSet, _partition: &str) -> Result<(), DataError> {
        Ok(())
    }
}

#[test]
fn make_check_is_fail_closed_on_cache_miss() {
    let index = StakeIndex::new(StubDataProvider::new(), "token".to_string(), 1, None);
    let check = index.make_check(test_config(&[]));
    let key = vec![1, 2, 3];
    assert!(!check.check(&key, &NodeRegistryType::Committer));
}

#[test]
fn make_check_reads_warmed_snapshot() {
    let key = vec![9];
    let data = StubDataProvider::new().with_stake_snapshot(1, snapshot_of(key.clone(), 1000));
    let mut index = StakeIndex::new(data, "token".to_string(), 1, None);
    index.warm();
    let check = index.make_check(test_config(&[]));
    assert!(check.check(&key, &NodeRegistryType::Committer));
}

#[test]
fn make_check_enforces_both_global_and_type_min() {
    let key = vec![7];
    let data = StubDataProvider::new().with_stake_snapshot(1, snapshot_of(key.clone(), 50));
    let mut index = StakeIndex::new(data, "token".to_string(), 1, None);
    index.refresh().unwrap();
    let check = index.make_check(test_config(&[(NodeRegistryType::Sentinel, 100)]));
    assert!(!check.check(&key, &NodeRegistryType::Sentinel));
    assert!(check.check(&key, &NodeRegistryType::Committer));
}

/// The global minimum binds where a role asks for less.
#[test]
fn stakes_below_the_global_minimum_are_refused() {
    let key = vec![7];
    let data = StubDataProvider::new().with_stake_snapshot(1, snapshot_of(key.clone(), 9));
    let mut index = StakeIndex::new(data, "token".to_string(), 1, None);
    index.refresh().unwrap();
    let check = index.make_check(test_config(&[(NodeRegistryType::Sentinel, 1)]));
    assert!(!check.check(&key, &NodeRegistryType::Sentinel));
}

/// The main environment can ask more, or less, of a role than the
/// configuration does.
#[test]
fn the_main_environment_decides_the_stake_of_a_role() {
    let mut cost_model = CostModel { global_min_stake: 10, ..CostModel::default() };
    cost_model.per_type_min_stake.insert(vec![NodeRegistryType::Committer.index()], 60);
    cost_model.per_type_min_stake.insert(vec![NodeRegistryType::Sentinel.index()], 20);
    let partition = |id: &str, partition_type| EnvironmentPartition { id: id.to_string(), partition_type };
    let environments = Config::load_environments(vec![EnvironmentMetadataSpec {
        environment_id: "test".to_string(),
        environment_name: "test".to_string(),
        partitions: vec![
            partition("token", EnvironmentPartitionType::Token),
            partition("slush", EnvironmentPartitionType::Slush),
        ],
        asym_crypto_provider: AsymCryptoProviderType::Ed25519,
        sym_crypto_provider: "sym".to_string(),
        serialization_provider: "rmp".to_string(),
        cost_model,
        allowed_token_types: vec![],
        trans_validation_specs: vec![],
        block_validation_specs: vec![],
        log_file: "test.log".to_string(),
        shard_count: 1,
    }]);
    let mut type_configs = TypeConfigs::new();
    for t in NodeRegistryType::all() {
        type_configs.insert(t, NodeTypeConfig { min: 1, max: 10, min_stake: 55 });
    }
    let config = Arc::new(Config::new_for_testing("test".to_string(), environments, type_configs));
    let key = vec![7];
    let data = StubDataProvider::new().with_stake_snapshot(1, snapshot_of(key.clone(), 50));
    let mut index = StakeIndex::new(data, "token".to_string(), 1, None);
    index.refresh().unwrap();
    let check = index.make_check(config);
    assert!(!check.check(&key, &NodeRegistryType::Committer));
    assert!(check.check(&key, &NodeRegistryType::Sentinel));
    assert!(!check.check(&key, &NodeRegistryType::Executor));
}

#[test]
fn refresh_replaces_snapshot_contents() {
    let provider = TestProvider::new(StubDataProvider::new().with_stake_snapshot(1, snapshot_of(vec![1], 100)));
    let inner = provider.inner.clone();
    let mut index = StakeIndex::new(provider, "token".to_string(), 1, None);
    index.refresh().unwrap();
    assert!(index.contains_key(&vec![1]));
    assert!(!index.contains_key(&vec![2]));
    *inner.lock().unwrap() = StubDataProvider::new().with_stake_snapshot(1, snapshot_of(vec![2], 200));
    index.set_epoch(1);
    assert!(!index.contains_key(&vec![1]));
    assert!(index.contains_key(&vec![2]));
}

/// The snapshot can be asked for by whoever shares the index.
#[test]
fn snapshots_are_fetched_apart_from_the_index() {
    let data = StubDataProvider::new().with_stake_snapshot(2, snapshot_of(vec![4], 40));
    let mut index = StakeIndex::new(data, "token".to_string(), 1, None);
    index.turn_to(2);
    assert!(!index.contains_key(&[4]));
    let (source, epoch, partition) = index.wanted_snapshot();
    assert_eq!((epoch, partition.as_str()), (2, "token"));
    index.apply_snapshot(epoch, source.get_stake_snapshot(epoch, &partition)).unwrap();
    assert!(index.contains_key(&[4]));
    let refused = index.apply_snapshot(9, Err(DataError::DataNotFound)).unwrap_err();
    assert!(refused.starts_with("get_stake_snapshot(9, token): "));
    assert!(index.contains_key(&[4]));
}

#[test]
fn refresh_leaves_index_on_data_error() {
    let key = vec![5];
    let data = StubDataProvider::new().with_stake_snapshot(1, snapshot_of(key.clone(), 500));
    let mut index = StakeIndex::new(data, "token".to_string(), 1, None);
    index.refresh().unwrap();
    assert!(index.contains_key(&key));
    index.set_epoch(2);
    assert!(index.contains_key(&key));
    assert!(index.refresh().is_err());
}

#[test]
fn make_check_never_calls_the_data_service() {
    let provider = TestProvider::new(StubDataProvider::new());
    let snapshot_calls = provider.snapshot_calls.clone();
    let index = StakeIndex::new(provider, "token".to_string(), 1, None);
    let check = index.make_check(test_config(&[]));
    let key = vec![1];
    for _ in 0..1000 {
        assert!(!check.check(&key, &NodeRegistryType::Committer));
    }
    assert_eq!(0, snapshot_calls.load(Ordering::SeqCst));
}

#[test]
fn refresh_intervals_have_a_default() {
    let index = StakeIndex::new(StubDataProvider::new(), "token".to_string(), 1, Some(7));
    assert_eq!(index.refresh_interval(), 7);
    let index = StakeIndex::new(StubDataProvider::new(), "token".to_string(), 1, None);
    assert_eq!(index.refresh_interval(), 5_000);
}
